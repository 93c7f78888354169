//! The length-doubling generator and its two implementations.
//!
//! A generator maps a 32-byte seed to a 64-byte output; the two halves of
//! the output are the seed's left and right children in the derivation
//! tree. Implementations must be pure: the output is a function of the seed
//! alone, which is what the trait-level contract of [`Prg32To64::generate`]
//! states through the per-implementation spec function `gen_spec`.

use vstd::prelude::*;

verus! {

/// What the first 64 keystream bytes of the ChaCha20 stream cipher are for a
/// given 32-byte key and an all-zero nonce: a function of the key alone.
pub uninterp spec fn chacha20_keystream64(seed: Seq<u8>) -> Seq<u8>;

/// What the 64-byte SHA-512 digest of a byte sequence is: a function of the
/// input bytes alone.
pub uninterp spec fn sha512_digest(input: Seq<u8>) -> Seq<u8>;

/// A length-doubling generator: a pure, deterministic expansion of a 32-byte
/// seed into a 64-byte output. The two one-way descent steps [`go_left`] and
/// [`go_right`] replace a seed with one output half each.
///
/// [`go_left`]: Prg32To64::go_left
/// [`go_right`]: Prg32To64::go_right
pub trait Prg32To64 {
    /// The generator's output as a mathematical function of the seed.
    spec fn gen_spec(input: Seq<u8>) -> Seq<u8>;

    /// Expand a 32-byte seed into the full 64-byte generator output.
    fn generate(input: &[u8; 32]) -> (output: [u8; 64])
        ensures
            output@ == Self::gen_spec(input@),
    ;

    /// Replace the seed with its left child, the first output half.
    fn go_left(input: &mut [u8; 32])
        ensures
            final(input)@ == Self::gen_spec(old(input)@).subrange(0, 32),
    {
        let seed: [u8; 32] = *input;
        let output = Self::generate(&seed);
        copy_half(input, &output, 0);
    }

    /// Replace the seed with its right child, the second output half.
    fn go_right(input: &mut [u8; 32])
        ensures
            final(input)@ == Self::gen_spec(old(input)@).subrange(32, 64),
    {
        let seed: [u8; 32] = *input;
        let output = Self::generate(&seed);
        copy_half(input, &output, 32);
    }
}

/// Left child of a seed under generator `P`.
pub open spec fn left_half<P: Prg32To64>(s: Seq<u8>) -> Seq<u8> {
    P::gen_spec(s).subrange(0, 32)
}

/// Right child of a seed under generator `P`.
pub open spec fn right_half<P: Prg32To64>(s: Seq<u8>) -> Seq<u8> {
    P::gen_spec(s).subrange(32, 64)
}

fn copy_half(dst: &mut [u8; 32], src: &[u8; 64], lo: usize)
    requires
        lo == 0 || lo == 32,
    ensures
        final(dst)@ == src@.subrange(lo as int, lo as int + 32),
{
    let mut j: usize = 0;
    while j < 32
        invariant
            j <= 32,
            lo == 0 || lo == 32,
            forall|k: int| 0 <= k < j ==> dst@[k] == src@[lo + k],
        decreases 32 - j,
    {
        dst[j] = src[lo + j];
        j += 1;
    }
    proof {
        assert(dst@ =~= src@.subrange(lo as int, lo as int + 32));
    }
}

/// Keystream-cipher generator: clocks the ChaCha20 stream cipher keyed by
/// the seed, with an all-zero nonce, and uses the first 64 keystream bytes.
pub struct ChaCha20;

impl Prg32To64 for ChaCha20 {
    open spec fn gen_spec(input: Seq<u8>) -> Seq<u8> {
        chacha20_keystream64(input)
    }

    fn generate(input: &[u8; 32]) -> (output: [u8; 64]) {
        chacha20_expand(input)
    }
}

/// Relies on `chacha20::ChaCha20` through `cipher::KeyIvInit::new` and
/// `cipher::StreamCipher::apply_keystream`: applying the keystream for a
/// given key and an all-zero nonce to an all-zero 64-byte buffer yields the
/// first 64 keystream bytes, a deterministic function of the key alone, and
/// never fails for so short a buffer.
#[verifier::external_body]
fn chacha20_expand(input: &[u8; 32]) -> (output: [u8; 64])
    ensures
        output@ == chacha20_keystream64(input@),
{
    let mut bytes = [0u8; 64];
    let mut cipher = <chacha20::ChaCha20 as chacha20::cipher::KeyIvInit>::new(
        input.into(),
        (&[0u8; 12]).into(),
    );
    chacha20::cipher::StreamCipher::apply_keystream(&mut cipher, &mut bytes);
    bytes
}

/// Hash-based generator: a single SHA-512 digest of the seed, split in half.
pub struct Sha512;

impl Prg32To64 for Sha512 {
    open spec fn gen_spec(input: Seq<u8>) -> Seq<u8> {
        sha512_digest(input)
    }

    fn generate(input: &[u8; 32]) -> (output: [u8; 64]) {
        sha512_expand(input)
    }
}

/// Relies on `bitcoin_hashes::sha512::Hash::hash` and `to_byte_array`: the
/// 64-byte SHA-512 digest of the input bytes, a deterministic function of
/// the input alone.
#[verifier::external_body]
fn sha512_expand(input: &[u8; 32]) -> (output: [u8; 64])
    ensures
        output@ == sha512_digest(input@),
{
    bitcoin_hashes::sha512::Hash::hash(input.as_slice()).to_byte_array()
}

} // verus!
