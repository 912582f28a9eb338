//! Chained AES-256-CBC over transport-sized windows.
//!
//! The cipher itself is outside code; everything around it — the chaining of
//! the initialisation vector across windows, lengths, and the shape of the
//! produced stream — is specified and proved here.

use vstd::prelude::*;

use aes::cipher::Array;
use aes::cipher::BlockModeDecrypt;
use aes::cipher::BlockModeEncrypt;
use aes::cipher::KeyIvInit;
use rand::Rng;

use crate::{AES_BLOCK_SIZE, AES_KEY_SIZE};

verus! {

/// Pointwise XOR of the first 16 bytes of two sequences.
pub open spec fn xor16(a: Seq<u8>, b: Seq<u8>) -> Seq<u8> {
    Seq::new(AES_BLOCK_SIZE as nat, |i: int| a[i] ^ b[i])
}

/// What `aes::Aes256` block encryption returns: the AES-256 permutation of a
/// 16-byte block under a 32-byte key. A function of its arguments alone.
pub uninterp spec fn aes256_encrypt_block(key: Seq<u8>, block: Seq<u8>) -> Seq<u8>;

/// What `aes::Aes256` block decryption returns: the inverse AES-256
/// permutation of a 16-byte block under a 32-byte key.
pub uninterp spec fn aes256_decrypt_block(key: Seq<u8>, block: Seq<u8>) -> Seq<u8>;

/// The AES-256 block permutation at its real 16-byte width. The real cipher
/// always produces 16 bytes, so the guard never matters for it; it gives the
/// specification a definite block length.
pub open spec fn enc_block(key: Seq<u8>, block: Seq<u8>) -> Seq<u8> {
    let r = aes256_encrypt_block(key, block);
    if r.len() == AES_BLOCK_SIZE {
        r
    } else {
        Seq::new(AES_BLOCK_SIZE as nat, |i: int| 0u8)
    }
}

/// Cipher-block-chaining encryption of a block-aligned plaintext:
/// each block is XORed with the previous ciphertext block (the IV at the
/// start) before the block cipher is applied.
pub open spec fn cbc_encrypt(key: Seq<u8>, iv: Seq<u8>, p: Seq<u8>) -> Seq<u8>
    decreases p.len(),
{
    if p.len() < AES_BLOCK_SIZE {
        Seq::empty()
    } else {
        let c0 = enc_block(key, xor16(p.take(AES_BLOCK_SIZE as int), iv));
        c0 + cbc_encrypt(key, c0, p.skip(AES_BLOCK_SIZE as int))
    }
}

/// Cipher-block-chaining decryption of a block-aligned ciphertext:
/// each block is put through the inverse cipher and then XORed with the
/// previous ciphertext block (the IV at the start).
pub open spec fn cbc_decrypt(key: Seq<u8>, iv: Seq<u8>, c: Seq<u8>) -> Seq<u8>
    decreases c.len(),
{
    if c.len() < AES_BLOCK_SIZE {
        Seq::empty()
    } else {
        let c0 = c.take(AES_BLOCK_SIZE as int);
        xor16(aes256_decrypt_block(key, c0), iv) + cbc_decrypt(key, c0, c.skip(AES_BLOCK_SIZE as int))
    }
}

/// The chaining state after a stretch of ciphertext has been produced or
/// consumed: its last block, or the starting IV while there is none.
pub open spec fn chain_iv(iv: Seq<u8>, c: Seq<u8>) -> Seq<u8> {
    if c.len() == 0 {
        iv
    } else {
        c.skip(c.len() - AES_BLOCK_SIZE as int)
    }
}

/// Relies on `cbc::Encryptor<aes::Aes256>` (no padding): CBC encryption of a
/// block-aligned window under the given key and starting IV, exactly
/// `cbc_encrypt`. One window of the chained stream; callers thread the last
/// ciphertext block of each window in as the next window's IV.
#[verifier::external_body]
pub(crate) fn encrypt_window(key: &[u8], iv: &[u8], data: &[u8]) -> (r: Vec<u8>)
    requires
        key@.len() == AES_KEY_SIZE,
        iv@.len() == AES_BLOCK_SIZE,
        data@.len() % (AES_BLOCK_SIZE as nat) == 0,
    ensures
        r@ == cbc_encrypt(key@, iv@, data@),
        r@.len() == data@.len(),
        data@.len() == AES_BLOCK_SIZE ==> r@ == aes256_encrypt_block(key@, xor16(data@, iv@)),
{
    let mut out = data.to_vec();
    let mut enc = cbc::Encryptor::<aes::Aes256>::new_from_slices(key, iv).unwrap();
    let (blocks, _) = Array::slice_as_chunks_mut(&mut out);
    enc.encrypt_blocks(blocks);
    out
}

/// Relies on `cbc::Decryptor<aes::Aes256>` (no padding): CBC decryption of a
/// block-aligned window under the given key and starting IV, exactly
/// `cbc_decrypt`; it inverts `cbc_encrypt` under the same key and IV.
#[verifier::external_body]
pub(crate) fn decrypt_window(key: &[u8], iv: &[u8], data: &[u8]) -> (r: Vec<u8>)
    requires
        key@.len() == AES_KEY_SIZE,
        iv@.len() == AES_BLOCK_SIZE,
        data@.len() % (AES_BLOCK_SIZE as nat) == 0,
    ensures
        r@ == cbc_decrypt(key@, iv@, data@),
        r@.len() == data@.len(),
        data@.len() == AES_BLOCK_SIZE ==> r@ == xor16(aes256_decrypt_block(key@, data@), iv@),
        forall|p: Seq<u8>|
            p.len() == data@.len() && cbc_encrypt(key@, iv@, p) == data@ ==> r@ == p,
{
    let mut out = data.to_vec();
    let mut dec = cbc::Decryptor::<aes::Aes256>::new_from_slices(key, iv).unwrap();
    let (blocks, _) = Array::slice_as_chunks_mut(&mut out);
    dec.decrypt_blocks(blocks);
    out
}

/// Relies on `rand::rng` and `Rng::fill_bytes`: fills a buffer from the
/// thread-local generator. Nothing is promised of the contents.
#[verifier::external_body]
pub(crate) fn random_bytes(n: usize) -> (r: Vec<u8>)
    ensures
        r@.len() == n,
{
    let mut buf = vec![0u8; n];
    rand::rng().fill_bytes(&mut buf);
    buf
}

/// CBC encryption neither pads nor drops: aligned input keeps its length.
pub proof fn lemma_cbc_encrypt_len(key: Seq<u8>, iv: Seq<u8>, p: Seq<u8>)
    requires
        p.len() % (AES_BLOCK_SIZE as nat) == 0,
    ensures
        cbc_encrypt(key, iv, p).len() == p.len(),
    decreases p.len(),
{
    if p.len() >= AES_BLOCK_SIZE {
        let c0 = enc_block(key, xor16(p.take(AES_BLOCK_SIZE as int), iv));
        assert(p.skip(AES_BLOCK_SIZE as int).len() % (AES_BLOCK_SIZE as nat) == 0);
        lemma_cbc_encrypt_len(key, c0, p.skip(AES_BLOCK_SIZE as int));
    }
}

/// Splitting a plaintext anywhere on a block boundary and encrypting the two
/// halves — the second one starting from the chaining state the first one
/// left — produces exactly the one-shot ciphertext.
pub proof fn lemma_cbc_encrypt_append(key: Seq<u8>, iv: Seq<u8>, a: Seq<u8>, b: Seq<u8>)
    requires
        a.len() % (AES_BLOCK_SIZE as nat) == 0,
        b.len() % (AES_BLOCK_SIZE as nat) == 0,
    ensures
        cbc_encrypt(key, iv, a + b) == cbc_encrypt(key, iv, a) + cbc_encrypt(
            key,
            chain_iv(iv, cbc_encrypt(key, iv, a)),
            b,
        ),
    decreases a.len(),
{
    if a.len() == 0 {
        assert(a + b =~= b);
        assert(cbc_encrypt(key, iv, a) + cbc_encrypt(key, iv, b) =~= cbc_encrypt(key, iv, b));
    } else {
        let c0 = enc_block(key, xor16(a.take(AES_BLOCK_SIZE as int), iv));
        let rest = a.skip(AES_BLOCK_SIZE as int);
        assert((a + b).take(AES_BLOCK_SIZE as int) =~= a.take(AES_BLOCK_SIZE as int));
        assert((a + b).skip(AES_BLOCK_SIZE as int) =~= rest + b);
        assert(rest.len() % (AES_BLOCK_SIZE as nat) == 0);
        lemma_cbc_encrypt_append(key, c0, rest, b);
        let e_rest = cbc_encrypt(key, c0, rest);
        lemma_cbc_encrypt_len(key, c0, rest);
        assert(chain_iv(iv, c0 + e_rest) =~= chain_iv(c0, e_rest));
        assert(c0 + (e_rest + cbc_encrypt(key, chain_iv(c0, e_rest), b)) =~= (c0 + e_rest)
            + cbc_encrypt(key, chain_iv(c0, e_rest), b));
    }
}

/// Splitting a ciphertext anywhere on a block boundary and decrypting the two
/// halves — the second one chained from the last block of the first — yields
/// exactly the one-shot plaintext.
pub proof fn lemma_cbc_decrypt_append(key: Seq<u8>, iv: Seq<u8>, a: Seq<u8>, b: Seq<u8>)
    requires
        a.len() % (AES_BLOCK_SIZE as nat) == 0,
        b.len() % (AES_BLOCK_SIZE as nat) == 0,
    ensures
        cbc_decrypt(key, iv, a + b) == cbc_decrypt(key, iv, a) + cbc_decrypt(
            key,
            chain_iv(iv, a),
            b,
        ),
    decreases a.len(),
{
    if a.len() == 0 {
        assert(a + b =~= b);
        assert(cbc_decrypt(key, iv, a) + cbc_decrypt(key, iv, b) =~= cbc_decrypt(key, iv, b));
    } else {
        let a0 = a.take(AES_BLOCK_SIZE as int);
        let rest = a.skip(AES_BLOCK_SIZE as int);
        assert((a + b).take(AES_BLOCK_SIZE as int) =~= a0);
        assert((a + b).skip(AES_BLOCK_SIZE as int) =~= rest + b);
        assert(rest.len() % (AES_BLOCK_SIZE as nat) == 0);
        lemma_cbc_decrypt_append(key, a0, rest, b);
        let p0 = xor16(aes256_decrypt_block(key, a0), iv);
        assert(chain_iv(iv, a) =~= chain_iv(a0, rest));
        assert(p0 + (cbc_decrypt(key, a0, rest) + cbc_decrypt(key, chain_iv(a0, rest), b)) =~= (p0
            + cbc_decrypt(key, a0, rest)) + cbc_decrypt(key, chain_iv(a0, rest), b));
    }
}

/// Every window is a whole number of cipher blocks.
pub open spec fn all_windows_aligned(ws: Seq<Seq<u8>>) -> bool {
    forall|i: int| 0 <= i < ws.len() ==> (#[trigger] ws[i]).len() % (AES_BLOCK_SIZE as nat) == 0
}

/// The chained, window-by-window form of CBC encryption: each window is
/// encrypted by a separate primitive call, and the IV handed to window n+1 is
/// the last ciphertext block produced by window n.
pub open spec fn cbc_encrypt_windows(key: Seq<u8>, iv: Seq<u8>, ws: Seq<Seq<u8>>) -> Seq<u8>
    decreases ws.len(),
{
    if ws.len() == 0 {
        Seq::empty()
    } else {
        let c0 = cbc_encrypt(key, iv, ws.first());
        c0 + cbc_encrypt_windows(key, chain_iv(iv, c0), ws.drop_first())
    }
}

/// Chaining equivalence: encrypting a plaintext in one call and encrypting it
/// split into arbitrary block-aligned transport windows — same key, same
/// starting IV, chaining state threaded across the windows — yield
/// byte-identical ciphertext.
pub proof fn lemma_chaining_equivalence(key: Seq<u8>, iv: Seq<u8>, ws: Seq<Seq<u8>>)
    requires
        all_windows_aligned(ws),
    ensures
        cbc_encrypt_windows(key, iv, ws) == cbc_encrypt(key, iv, ws.flatten()),
    decreases ws.len(),
{
    if ws.len() == 0 {
    } else {
        let c0 = cbc_encrypt(key, iv, ws.first());
        assert(all_windows_aligned(ws.drop_first())) by {
            assert(forall|i: int|
                0 <= i < ws.drop_first().len() ==> ws.drop_first()[i] == ws[i + 1]);
        }
        lemma_chaining_equivalence(key, chain_iv(iv, c0), ws.drop_first());
        lemma_flatten_aligned(ws.drop_first());
        lemma_cbc_encrypt_append(key, iv, ws.first(), ws.drop_first().flatten());
        assert(ws.flatten() == ws.first() + ws.drop_first().flatten());
    }
}

/// Flattening block-aligned windows gives a block-aligned stream.
pub proof fn lemma_flatten_aligned(ws: Seq<Seq<u8>>)
    requires
        all_windows_aligned(ws),
    ensures
        ws.flatten().len() % (AES_BLOCK_SIZE as nat) == 0,
    decreases ws.len(),
{
    if ws.len() == 0 {
    } else {
        assert(all_windows_aligned(ws.drop_first())) by {
            assert(forall|i: int|
                0 <= i < ws.drop_first().len() ==> ws.drop_first()[i] == ws[i + 1]);
        }
        lemma_flatten_aligned(ws.drop_first());
        assert(ws.first().len() % (AES_BLOCK_SIZE as nat) == 0);
    }
}

} // verus!
