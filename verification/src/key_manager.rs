//! The symmetric-key lifecycle and the chunk-wise chained cipher operations.
//!
//! A `KeyManager` owns at most one active 32-byte key. Encryption prepends a
//! 4-byte little-endian length, zero-pads to whole cipher blocks, draws a
//! fresh random IV, and encrypts window by window with the chaining state
//! threaded across windows; the output is the IV followed by one contiguous
//! CBC stream. Decryption reverses all of it and validates every length.

use vstd::prelude::*;

use vstd::arithmetic::div_mod::{
    lemma_fundamental_div_mod, lemma_fundamental_div_mod_converse_mod, lemma_mod_bound,
    lemma_mod_multiples_basic,
};
use vstd::bytes::{
    lemma_auto_spec_u32_to_from_le_bytes, spec_u32_from_le_bytes, spec_u32_to_le_bytes,
    u32_from_le_bytes, u32_to_le_bytes,
};
use vstd::pervasive::unreached;

use crate::crypto::{
    cbc_decrypt, cbc_encrypt, chain_iv, decrypt_window, encrypt_window, lemma_cbc_decrypt_append,
    lemma_cbc_encrypt_append, lemma_cbc_encrypt_len, random_bytes,
};
use crate::errors::TeeError;
use crate::{AES_BLOCK_SIZE, AES_KEY_SIZE, CHUNK_SIZE};

verus! {

/// The least whole number of cipher blocks that holds `n` bytes.
pub open spec fn round_up_blocks(n: nat) -> nat {
    ((n + (AES_BLOCK_SIZE - 1) as nat) / (AES_BLOCK_SIZE as nat)) * (AES_BLOCK_SIZE as nat)
}

/// `round_up_blocks` is the least block multiple at or above `n`.
pub proof fn lemma_round_up_blocks(n: nat)
    ensures
        round_up_blocks(n) % (AES_BLOCK_SIZE as nat) == 0,
        n <= round_up_blocks(n),
        round_up_blocks(n) < n + AES_BLOCK_SIZE,
{
    let b = AES_BLOCK_SIZE as int;
    let q = (n + (AES_BLOCK_SIZE - 1) as nat) / (AES_BLOCK_SIZE as nat);
    lemma_fundamental_div_mod(n as int + b - 1, b);
    lemma_mod_bound(n as int + b - 1, b);
    lemma_mod_multiples_basic(q as int, b);
}

/// A block multiple between `n` and `round_up_blocks(n)` is `round_up_blocks(n)`.
pub proof fn lemma_round_up_blocks_least(n: nat, m: nat)
    requires
        m % (AES_BLOCK_SIZE as nat) == 0,
        n <= m <= round_up_blocks(n),
    ensures
        m == round_up_blocks(n),
{
    let b = AES_BLOCK_SIZE as int;
    lemma_round_up_blocks(n);
    let r = round_up_blocks(n);
    if m < r {
        lemma_fundamental_div_mod_converse_mod(r as int, b, r as int / b, 0);
        assert((r - m) % b == 0) by {
            lemma_sub_mod(r as int, m as int, b);
        }
        lemma_mod_bound((r - m) as int, b);
        assert(0 < r - m < b);
        assert((r - m) % b == r - m) by {
            lemma_small_mod_self((r - m) as int, b);
        }
    }
}

/// The difference of two multiples of `b` is a multiple of `b`.
proof fn lemma_sub_mod(x: int, y: int, b: int)
    requires
        b > 0,
        x % b == 0,
        y % b == 0,
        y <= x,
    ensures
        (x - y) % b == 0,
{
    lemma_fundamental_div_mod(x, b);
    lemma_fundamental_div_mod(y, b);
    assert(x - y == b * (x / b) - b * (y / b));
    assert(b * (x / b) - b * (y / b) == b * (x / b - y / b)) by (nonlinear_arith);
    lemma_fundamental_div_mod_converse_mod(x - y, b, x / b - y / b, 0);
}

/// A value already below `b` is its own remainder.
proof fn lemma_small_mod_self(x: int, b: int)
    requires
        0 <= x < b,
    ensures
        x % b == x,
{
    lemma_fundamental_div_mod_converse_mod(x, b, 0, x);
}

/// The cipher-layer payload for a plaintext: a 4-byte little-endian length
/// prefix, the plaintext, and zero padding up to a whole number of blocks.
pub open spec fn sealed_payload(data: Seq<u8>) -> Seq<u8> {
    let framed = spec_u32_to_le_bytes(data.len() as u32) + data;
    framed + Seq::new((round_up_blocks(framed.len()) - framed.len()) as nat, |i: int| 0u8)
}

/// `c` is a chained-CBC sealing of `data` under `key`: a 16-byte IV followed
/// by the CBC encryption, under that IV, of the length-framed zero-padded
/// plaintext.
pub open spec fn is_sealed_for(key: Seq<u8>, c: Seq<u8>, data: Seq<u8>) -> bool {
    &&& data.len() <= u32::MAX
    &&& c.len() == AES_BLOCK_SIZE + sealed_payload(data).len()
    &&& c.skip(AES_BLOCK_SIZE as int) == cbc_encrypt(
        key,
        c.take(AES_BLOCK_SIZE as int),
        sealed_payload(data),
    )
}

/// The sealed payload holds the frame and is block-aligned.
pub proof fn lemma_sealed_payload_shape(data: Seq<u8>)
    ensures
        sealed_payload(data).len() % (AES_BLOCK_SIZE as nat) == 0,
        4 + data.len() <= sealed_payload(data).len() < 4 + data.len() + AES_BLOCK_SIZE,
        sealed_payload(data).take(4) == spec_u32_to_le_bytes(data.len() as u32),
        sealed_payload(data).subrange(4, 4 + data.len() as int) == data,
{
    lemma_auto_spec_u32_to_from_le_bytes();
    let framed = spec_u32_to_le_bytes(data.len() as u32) + data;
    lemma_round_up_blocks(framed.len());
    assert(sealed_payload(data).take(4) =~= spec_u32_to_le_bytes(data.len() as u32));
    assert(sealed_payload(data).subrange(4, 4 + data.len() as int) =~= data);
}

/// Builds the cipher-layer payload: length prefix, data, zero padding.
pub(crate) fn build_sealed_payload(data: &[u8]) -> (r: Vec<u8>)
    requires
        data@.len() <= u32::MAX,
        data@.len() + AES_BLOCK_SIZE + 4 <= usize::MAX,
    ensures
        r@ == sealed_payload(data@),
{
    proof {
        lemma_auto_spec_u32_to_from_le_bytes();
    }
    let ghost framed = spec_u32_to_le_bytes(data@.len() as u32) + data@;
    let mut buf = u32_to_le_bytes(data.len() as u32);
    buf.extend_from_slice(data);
    assert(buf@ =~= framed);
    proof {
        lemma_round_up_blocks(framed.len());
    }
    while buf.len() % AES_BLOCK_SIZE != 0
        invariant
            framed.len() <= buf@.len() <= round_up_blocks(framed.len()),
            buf@ == framed + Seq::new((buf@.len() - framed.len()) as nat, |i: int| 0u8),
        decreases round_up_blocks(framed.len()) - buf@.len(),
    {
        proof {
            lemma_round_up_blocks(framed.len());
            if buf@.len() == round_up_blocks(framed.len()) {
                assert(buf@.len() % (AES_BLOCK_SIZE as nat) == 0);
            }
        }
        buf.push(0u8);
        assert(buf@ =~= framed + Seq::new((buf@.len() - framed.len()) as nat, |i: int| 0u8));
    }
    proof {
        lemma_round_up_blocks_least(framed.len(), buf@.len());
        assert(buf@ =~= sealed_payload(data@));
    }
    buf
}

/// CBC-encrypts a block-aligned payload window by window, threading the last
/// ciphertext block of each window in as the next window's IV. The result is
/// the same single contiguous CBC stream a one-shot encryption would give.
fn encrypt_chained(key: &[u8], iv: &[u8], payload: &[u8]) -> (r: Vec<u8>)
    requires
        key@.len() == AES_KEY_SIZE,
        iv@.len() == AES_BLOCK_SIZE,
        payload@.len() % (AES_BLOCK_SIZE as nat) == 0,
    ensures
        r@ == cbc_encrypt(key@, iv@, payload@),
        r@.len() == payload@.len(),
{
    let mut out: Vec<u8> = Vec::new();
    let mut ivbuf: Vec<u8> = vstd::slice::slice_to_vec(iv);
    let mut offset: usize = 0;
    proof {
        assert(payload@.take(0) =~= Seq::<u8>::empty());
    }
    while offset < payload.len()
        invariant
            key@.len() == AES_KEY_SIZE,
            iv@.len() == AES_BLOCK_SIZE,
            payload@.len() % (AES_BLOCK_SIZE as nat) == 0,
            offset <= payload@.len(),
            offset % AES_BLOCK_SIZE == 0,
            out@ == cbc_encrypt(key@, iv@, payload@.take(offset as int)),
            out@.len() == offset,
            ivbuf@ == chain_iv(iv@, out@),
            ivbuf@.len() == AES_BLOCK_SIZE,
        decreases payload@.len() - offset,
    {
        let end: usize = if payload.len() - offset >= CHUNK_SIZE {
            offset + CHUNK_SIZE
        } else {
            payload.len()
        };
        assert((end - offset) as int % (AES_BLOCK_SIZE as int) == 0) by {
            if end == payload.len() {
                lemma_sub_mod(payload@.len() as int, offset as int, AES_BLOCK_SIZE as int);
            }
        }
        let window = &payload[offset..end];
        let cw = encrypt_window(key, ivbuf.as_slice(), window);
        proof {
            lemma_cbc_encrypt_append(key@, iv@, payload@.take(offset as int), window@);
            assert(payload@.take(offset as int) + window@ =~= payload@.take(end as int));
            lemma_cbc_encrypt_len(key@, ivbuf@, window@);
        }
        let next_iv = vstd::slice::slice_to_vec(&cw[cw.len() - AES_BLOCK_SIZE..cw.len()]);
        out.extend_from_slice(cw.as_slice());
        proof {
            assert(out@ =~= cbc_encrypt(key@, iv@, payload@.take(end as int)));
            assert(next_iv@ =~= chain_iv(iv@, out@));
        }
        ivbuf = next_iv;
        offset = end;
    }
    proof {
        assert(payload@.take(payload@.len() as int) =~= payload@);
    }
    out
}

/// CBC-decrypts a block-aligned ciphertext window by window, threading the
/// last ciphertext block of each window in as the next window's IV. Whatever
/// plaintext the same key and IV would have encrypted to this ciphertext is
/// returned exactly.
fn decrypt_chained(key: &[u8], iv: &[u8], ct: &[u8]) -> (r: Vec<u8>)
    requires
        key@.len() == AES_KEY_SIZE,
        iv@.len() == AES_BLOCK_SIZE,
        ct@.len() % (AES_BLOCK_SIZE as nat) == 0,
    ensures
        r@ == cbc_decrypt(key@, iv@, ct@),
        r@.len() == ct@.len(),
        forall|p: Seq<u8>| p.len() == ct@.len() && cbc_encrypt(key@, iv@, p) == ct@ ==> r@ == p,
{
    let mut out: Vec<u8> = Vec::new();
    let mut ivbuf: Vec<u8> = vstd::slice::slice_to_vec(iv);
    let mut offset: usize = 0;
    proof {
        assert(ct@.take(0) =~= Seq::<u8>::empty());
    }
    while offset < ct.len()
        invariant
            key@.len() == AES_KEY_SIZE,
            iv@.len() == AES_BLOCK_SIZE,
            ct@.len() % (AES_BLOCK_SIZE as nat) == 0,
            offset <= ct@.len(),
            offset % AES_BLOCK_SIZE == 0,
            out@ == cbc_decrypt(key@, iv@, ct@.take(offset as int)),
            out@.len() == offset,
            ivbuf@ == chain_iv(iv@, ct@.take(offset as int)),
            ivbuf@.len() == AES_BLOCK_SIZE,
            forall|p: Seq<u8>|
                p.len() == offset && cbc_encrypt(key@, iv@, p) == ct@.take(offset as int)
                    ==> out@ == p,
        decreases ct@.len() - offset,
    {
        let end: usize = if ct.len() - offset >= CHUNK_SIZE {
            offset + CHUNK_SIZE
        } else {
            ct.len()
        };
        assert((end - offset) as int % (AES_BLOCK_SIZE as int) == 0) by {
            if end == ct.len() {
                lemma_sub_mod(ct@.len() as int, offset as int, AES_BLOCK_SIZE as int);
            }
        }
        let window = &ct[offset..end];
        let pw = decrypt_window(key, ivbuf.as_slice(), window);
        let ghost out_old = out@;
        out.extend_from_slice(pw.as_slice());
        proof {
            lemma_cbc_decrypt_append(key@, iv@, ct@.take(offset as int), window@);
            assert(ct@.take(offset as int) + window@ =~= ct@.take(end as int));
            assert(out@ =~= cbc_decrypt(key@, iv@, ct@.take(end as int)));
            assert forall|p: Seq<u8>|
                p.len() == end && cbc_encrypt(key@, iv@, p) == ct@.take(end as int) implies out@
                == p by {
                let p1 = p.take(offset as int);
                let p2 = p.skip(offset as int);
                assert(p1.len() % (AES_BLOCK_SIZE as nat) == 0);
                assert(p2.len() as int % (AES_BLOCK_SIZE as int) == 0) by {
                    lemma_sub_mod(p.len() as int, offset as int, AES_BLOCK_SIZE as int);
                }
                lemma_cbc_encrypt_append(key@, iv@, p1, p2);
                assert(p1 + p2 =~= p);
                let e1 = cbc_encrypt(key@, iv@, p1);
                lemma_cbc_encrypt_len(key@, iv@, p1);
                assert(e1 =~= ct@.take(offset as int));
                let e2 = cbc_encrypt(key@, chain_iv(iv@, e1), p2);
                lemma_cbc_encrypt_len(key@, chain_iv(iv@, e1), p2);
                assert(e1 + e2 == cbc_encrypt(key@, iv@, p));
                assert(e2 =~= (e1 + e2).skip(offset as int));
                assert(ct@.take(end as int).skip(offset as int) =~= window@);
                assert(e2 == window@);
                assert(out_old == p1);
                assert(out@ =~= p);
            }
        }
        let next_iv = vstd::slice::slice_to_vec(&ct[end - AES_BLOCK_SIZE..end]);
        proof {
            assert(next_iv@ =~= chain_iv(iv@, ct@.take(end as int)));
        }
        ivbuf = next_iv;
        offset = end;
    }
    proof {
        assert(ct@.take(ct@.len() as int) =~= ct@);
    }
    out
}

/// The exact outcome of decrypting a sealed blob under a key: every refused
/// shape is refused as `BadParameters`, and an accepted blob yields exactly
/// the bytes its length prefix declares.
pub open spec fn unseal(key: Seq<u8>, c: Seq<u8>) -> Result<Seq<u8>, TeeError> {
    if c.len() < 2 * AES_BLOCK_SIZE {
        Err(TeeError::BadParameters)
    } else if (c.len() - AES_BLOCK_SIZE as nat) as int % (AES_BLOCK_SIZE as int) != 0 {
        Err(TeeError::BadParameters)
    } else {
        let plain = cbc_decrypt(key, c.take(AES_BLOCK_SIZE as int), c.skip(AES_BLOCK_SIZE as int));
        let n = spec_u32_from_le_bytes(plain.take(4)) as nat;
        if n + 4 > plain.len() {
            Err(TeeError::BadParameters)
        } else {
            Ok(plain.subrange(4, 4 + n as int))
        }
    }
}

/// Owns the single active symmetric key of the enclave.
pub struct KeyManager {
    key: Option<Vec<u8>>,
}

impl View for KeyManager {
    type V = Option<Seq<u8>>;

    closed spec fn view(&self) -> Option<Seq<u8>> {
        match self.key {
            Some(ref k) => Some(k@),
            None => None,
        }
    }
}

impl KeyManager {
    /// The active key, if any, is exactly 32 bytes.
    pub open spec fn wf(&self) -> bool {
        self@ matches Some(k) ==> k.len() == AES_KEY_SIZE
    }

    /// A manager with no active key.
    pub fn new() -> (r: Self)
        ensures
            r.wf(),
            r@ is None,
    {
        KeyManager { key: None }
    }

    /// Whether a key is active, without exposing it.
    pub fn has_aes_key(&self) -> (r: bool)
        ensures
            r == (self@ is Some),
    {
        self.key.is_some()
    }

    /// Draws a fresh random 32-byte key and makes it active.
    pub fn generate_aes_key(&mut self)
        ensures
            final(self).wf(),
            final(self)@ is Some,
    {
        self.key = Some(random_bytes(AES_KEY_SIZE));
    }

    /// Installs an externally supplied 32-byte key as active.
    pub fn import_aes_key(&mut self, key: &[u8])
        requires
            key@.len() == AES_KEY_SIZE,
        ensures
            final(self).wf(),
            final(self)@ == Some(key@),
    {
        self.key = Some(vstd::slice::slice_to_vec(key));
    }

    /// Returns the raw bytes of the active key: the single path by which key
    /// material crosses back out. Fails with `ItemNotFound` when none is active.
    pub fn export_aes_key(&self) -> (r: Result<Vec<u8>, TeeError>)
        ensures
            match self@ {
                Some(k) => r is Ok && r->Ok_0@ == k,
                None => r == Err::<Vec<u8>, TeeError>(TeeError::ItemNotFound),
            },
    {
        match &self.key {
            Some(k) => Ok(vstd::slice::slice_to_vec(k.as_slice())),
            None => Err(TeeError::ItemNotFound),
        }
    }

    /// Makes sure a key is active, generating a fresh one when none is:
    /// encrypting is meant to work the first time.
    pub fn ensure_aes_key(&mut self)
        requires
            old(self).wf(),
        ensures
            final(self).wf(),
            final(self)@ is Some,
            old(self)@ is Some ==> final(self)@ == old(self)@,
    {
        if !self.has_aes_key() {
            self.generate_aes_key();
        }
    }

    /// Demands an active key: decrypting implies one was already provisioned.
    pub fn require_aes_key(&self) -> (r: Result<(), TeeError>)
        ensures
            r is Ok <==> self@ is Some,
            self@ is None ==> r == Err::<(), TeeError>(TeeError::ItemNotFound),
    {
        if self.key.is_some() {
            Ok(())
        } else {
            Err(TeeError::ItemNotFound)
        }
    }

    /// The active key, for internal use.
    fn key_ref(&self) -> (r: &Vec<u8>)
        requires
            self@ is Some,
        ensures
            r@ == self@->0,
    {
        match &self.key {
            Some(k) => k,
            None => unreached(),
        }
    }

    /// Seals a plaintext under the active key, generating one if absent:
    /// length prefix, zero padding, fresh random IV, then window-chained CBC.
    /// The result is the IV followed by one contiguous CBC stream.
    pub fn encrypt_data(&mut self, data: &[u8]) -> (r: Result<Vec<u8>, TeeError>)
        requires
            old(self).wf(),
            data@.len() <= u32::MAX,
            data@.len() + AES_BLOCK_SIZE + 4 <= usize::MAX,
        ensures
            final(self).wf(),
            final(self)@ is Some,
            old(self)@ is Some ==> final(self)@ == old(self)@,
            r is Ok,
            is_sealed_for(final(self)@->0, r->Ok_0@, data@),
    {
        self.ensure_aes_key();
        let payload = build_sealed_payload(data);
        proof {
            lemma_sealed_payload_shape(data@);
        }
        let iv = random_bytes(AES_BLOCK_SIZE);
        let key = self.key_ref();
        let ct = encrypt_chained(key.as_slice(), iv.as_slice(), payload.as_slice());
        let mut out = iv;
        out.extend_from_slice(ct.as_slice());
        proof {
            assert(out@.take(AES_BLOCK_SIZE as int) =~= iv@);
            assert(out@.skip(AES_BLOCK_SIZE as int) =~= ct@);
        }
        Ok(out)
    }

    /// Opens a sealed blob under the active key. Fails with `ItemNotFound`
    /// when no key is active; fails with `BadParameters` on every malformed
    /// shape, exactly as `unseal` says; and whenever the input is a sealing
    /// of some plaintext under the active key, returns exactly that plaintext.
    pub fn decrypt_data(&self, encrypted: &[u8]) -> (r: Result<Vec<u8>, TeeError>)
        requires
            self.wf(),
        ensures
            self@ is None ==> r == Err::<Vec<u8>, TeeError>(TeeError::ItemNotFound),
            self@ matches Some(k) ==> match r {
                Ok(v) => unseal(k, encrypted@) == Ok::<Seq<u8>, TeeError>(v@),
                Err(e) => unseal(k, encrypted@) == Err::<Seq<u8>, TeeError>(e),
            },
            self@ matches Some(k) ==> forall|p: Seq<u8>|
                #[trigger] is_sealed_for(k, encrypted@, p) ==> r is Ok && r->Ok_0@ == p,
    {
        if self.key.is_none() {
            return Err(TeeError::ItemNotFound);
        }
        let key = self.key_ref();
        let ghost k = self@->0;
        if encrypted.len() < 2 * AES_BLOCK_SIZE {
            proof {
                assert forall|p: Seq<u8>| !is_sealed_for(k, encrypted@, p) by {
                    lemma_sealed_payload_shape(p);
                }
            }
            return Err(TeeError::BadParameters);
        }
        if (encrypted.len() - AES_BLOCK_SIZE) % AES_BLOCK_SIZE != 0 {
            proof {
                assert forall|p: Seq<u8>| !is_sealed_for(k, encrypted@, p) by {
                    lemma_sealed_payload_shape(p);
                }
            }
            return Err(TeeError::BadParameters);
        }
        let iv = &encrypted[0..AES_BLOCK_SIZE];
        let body = &encrypted[AES_BLOCK_SIZE..encrypted.len()];
        proof {
            assert(iv@ =~= encrypted@.take(AES_BLOCK_SIZE as int));
            assert(body@ =~= encrypted@.skip(AES_BLOCK_SIZE as int));
        }
        let plain = decrypt_chained(key.as_slice(), iv, body);
        let n = u32_from_le_bytes(&plain[0..4]);
        proof {
            assert(plain@.subrange(0, 4) =~= plain@.take(4));
            assert forall|p: Seq<u8>| is_sealed_for(k, encrypted@, p) implies plain@
                == sealed_payload(p) && n == p.len() by {
                lemma_sealed_payload_shape(p);
                lemma_auto_spec_u32_to_from_le_bytes();
                assert(sealed_payload(p).take(4) == spec_u32_to_le_bytes(p.len() as u32));
            }
        }
        if (n as usize) > plain.len() - 4 {
            proof {
                assert forall|p: Seq<u8>| !is_sealed_for(k, encrypted@, p) by {
                    if is_sealed_for(k, encrypted@, p) {
                        lemma_sealed_payload_shape(p);
                    }
                }
            }
            return Err(TeeError::BadParameters);
        }
        let out = vstd::slice::slice_to_vec(&plain[4..4 + n as usize]);
        proof {
            assert forall|p: Seq<u8>| is_sealed_for(k, encrypted@, p) implies out@ == p by {
                lemma_sealed_payload_shape(p);
            }
        }
        Ok(out)
    }
}

} // verus!
