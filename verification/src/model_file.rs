//! The host-side encryption driver and the persisted model file formats.
//!
//! A model travels either as one self-contained sealed blob, or — above a
//! size threshold — as a chunked file: the plaintext is cut into
//! `CHUNK_SIZE` slices and every slice is sealed on its own, with its own IV.
//! Each chunk carries a zero-based identifier; reconstruction orders chunks
//! by identifier, so wire order and logical order are decoupled.

use vstd::prelude::*;

use vstd::arithmetic::div_mod::{
    lemma_fundamental_div_mod, lemma_fundamental_div_mod_converse_div, lemma_mod_bound,
};
use vstd::arithmetic::mul::lemma_mul_inequality;

use crate::crypto::{encrypt_window, random_bytes};
use crate::errors::TeeError;
use crate::key_manager::{
    build_sealed_payload, is_sealed_for, lemma_sealed_payload_shape, sealed_payload, unseal,
    KeyManager,
};
use crate::{AES_BLOCK_SIZE, AES_KEY_SIZE, CHUNK_SIZE};

verus! {

/// The single-blob persisted form: an algorithm tag and one sealed blob.
pub struct EncryptedModelFile {
    /// The algorithm tag of the single-blob form.
    pub algorithm: String,
    /// IV-prefixed ciphertext of the whole model.
    pub encrypted_data: Vec<u8>,
}

/// One record of the chunked form: a zero-based identifier, the declared
/// byte size of its payload, and a self-contained sealed blob.
pub struct EncryptedChunk {
    /// Zero-based sequence identifier.
    pub id: usize,
    /// Declared size of `data` in bytes.
    pub size: usize,
    /// A self-contained sealed blob for this slice, with its own IV.
    pub data: Vec<u8>,
}

/// The mathematical content of one chunk record.
pub ghost struct ChunkView {
    /// Zero-based sequence identifier.
    pub id: int,
    /// Declared size of `data` in bytes.
    pub size: int,
    /// The sealed blob.
    pub data: Seq<u8>,
}

impl View for EncryptedChunk {
    type V = ChunkView;

    open spec fn view(&self) -> ChunkView {
        ChunkView { id: self.id as int, size: self.size as int, data: self.data@ }
    }
}

/// The chunked persisted form.
pub struct ChunkedEncryptedModelFile {
    /// The algorithm tag of the chunked form.
    pub algorithm: String,
    /// The slice size the plaintext was cut by.
    pub chunk_size: usize,
    /// How many chunks the file declares.
    pub total_chunks: usize,
    /// The plaintext size the file declares.
    pub original_size: usize,
    /// The chunk records, in any order.
    pub chunks: Vec<EncryptedChunk>,
}

/// The mathematical contents of a chunk record sequence.
pub open spec fn view_chunks(cs: Seq<EncryptedChunk>) -> Seq<ChunkView> {
    Seq::new(cs.len(), |i: int| cs[i]@)
}

/// How many `CHUNK_SIZE` slices a plaintext of `len` bytes cuts into.
pub open spec fn chunk_count(len: nat) -> nat {
    (len + (CHUNK_SIZE - 1) as nat) / (CHUNK_SIZE as nat)
}

/// `chunk_count` is the least slice count that covers the plaintext.
pub proof fn lemma_chunk_count(len: nat)
    ensures
        chunk_count(len) * CHUNK_SIZE >= len,
        len > 0 ==> (chunk_count(len) - 1) * CHUNK_SIZE < len,
        len == 0 ==> chunk_count(len) == 0,
{
    let c = CHUNK_SIZE as int;
    lemma_fundamental_div_mod(len as int + c - 1, c);
    lemma_mod_bound(len as int + c - 1, c);
    if len == 0 {
        lemma_fundamental_div_mod_converse_div(c - 1, c, 0, c - 1);
    }
}

/// A slice count that covers the plaintext, whose predecessor does not, is
/// exactly `chunk_count`.
pub proof fn lemma_chunk_count_unique(len: nat, m: nat)
    requires
        m * CHUNK_SIZE >= len,
        m > 0 ==> (m - 1) * CHUNK_SIZE < len,
        len == 0 ==> m == 0,
    ensures
        m == chunk_count(len),
{
    lemma_chunk_count(len);
    let n = chunk_count(len) as int;
    let c = CHUNK_SIZE as int;
    if len > 0 {
        if m < n {
            lemma_mul_inequality(m as int, n - 1, c);
        }
        if m > n {
            lemma_mul_inequality(n, m as int - 1, c);
        }
    }
}

/// The slice of the plaintext that chunk `i` carries.
pub open spec fn plain_slice(p: Seq<u8>, i: int) -> Seq<u8> {
    let start = i * CHUNK_SIZE;
    let end = if (i + 1) * CHUNK_SIZE <= p.len() {
        (i + 1) * CHUNK_SIZE
    } else {
        p.len() as int
    };
    p.subrange(start, end)
}

/// Seals a plaintext under a caller-supplied key in one shot: length prefix,
/// zero padding, fresh random IV, one cipher call over the whole padded
/// buffer. The output is the IV followed by the ciphertext.
pub fn encrypt_with_key_host(key: &[u8], data: &[u8]) -> (r: Vec<u8>)
    requires
        key@.len() == AES_KEY_SIZE,
        data@.len() <= u32::MAX,
        data@.len() + AES_BLOCK_SIZE + 4 <= usize::MAX,
    ensures
        is_sealed_for(key@, r@, data@),
        r@.len() == AES_BLOCK_SIZE + sealed_payload(data@).len(),
{
    let payload = build_sealed_payload(data);
    proof {
        lemma_sealed_payload_shape(data@);
    }
    let iv = random_bytes(AES_BLOCK_SIZE);
    let ct = encrypt_window(key, iv.as_slice(), payload.as_slice());
    let mut out = iv;
    out.extend_from_slice(ct.as_slice());
    proof {
        assert(out@.take(AES_BLOCK_SIZE as int) =~= iv@);
        assert(out@.skip(AES_BLOCK_SIZE as int) =~= ct@);
    }
    out
}

/// Builds the single-blob persisted form: the whole model sealed once.
pub fn build_encrypted_model_file(key: &[u8], data: &[u8]) -> (r: EncryptedModelFile)
    requires
        key@.len() == AES_KEY_SIZE,
        data@.len() <= u32::MAX,
        data@.len() + AES_BLOCK_SIZE + 4 <= usize::MAX,
    ensures
        r.algorithm@ == "AES-256-CBC"@,
        is_sealed_for(key@, r.encrypted_data@, data@),
{
    let encrypted_data = encrypt_with_key_host(key, data);
    EncryptedModelFile { algorithm: "AES-256-CBC".to_owned(), encrypted_data }
}

/// Builds the chunked persisted form: the plaintext is cut into `CHUNK_SIZE`
/// slices and every slice is sealed on its own under the same key, each with
/// its own IV; the records carry ids in cutting order.
pub fn build_chunked_model_file(key: &[u8], data: &[u8]) -> (r: ChunkedEncryptedModelFile)
    requires
        key@.len() == AES_KEY_SIZE,
        data@.len() + CHUNK_SIZE <= usize::MAX,
    ensures
        r.algorithm@ == "AES-256-CBC-Chunked"@,
        r.chunk_size == CHUNK_SIZE,
        r.original_size == data@.len(),
        r.total_chunks == chunk_count(data@.len()),
        r.chunks@.len() == r.total_chunks,
        forall|i: int|
            0 <= i < r.chunks@.len() ==> {
                let cv = #[trigger] view_chunks(r.chunks@)[i];
                &&& cv.id == i
                &&& cv.size == cv.data.len()
                &&& is_sealed_for(key@, cv.data, plain_slice(data@, i))
            },
{
    let mut chunks: Vec<EncryptedChunk> = Vec::new();
    let mut offset: usize = 0;
    let mut id: usize = 0;
    proof {
        lemma_chunk_count(data@.len());
    }
    while offset < data.len()
        invariant
            key@.len() == AES_KEY_SIZE,
            data@.len() + CHUNK_SIZE <= usize::MAX,
            chunks@.len() == id,
            id * CHUNK_SIZE <= data@.len() + CHUNK_SIZE,
            offset == if id * CHUNK_SIZE <= data@.len() {
                id * CHUNK_SIZE
            } else {
                data@.len() as int
            },
            id > 0 ==> (id - 1) * CHUNK_SIZE < data@.len(),
            forall|i: int|
                0 <= i < chunks@.len() ==> {
                    let cv = #[trigger] view_chunks(chunks@)[i];
                    &&& cv.id == i
                    &&& cv.size == cv.data.len()
                    &&& is_sealed_for(key@, cv.data, plain_slice(data@, i))
                },
        decreases data@.len() - offset,
    {
        let end: usize = if data.len() - offset >= CHUNK_SIZE {
            offset + CHUNK_SIZE
        } else {
            data.len()
        };
        let window = &data[offset..end];
        let sealed = encrypt_with_key_host(key, window);
        proof {
            assert(window@ =~= plain_slice(data@, id as int));
        }
        let size = sealed.len();
        let ghost prev = chunks@;
        let ghost sealed_view = sealed@;
        chunks.push(EncryptedChunk { id, size, data: sealed });
        proof {
            assert forall|i: int|
                0 <= i < chunks@.len() implies {
                let cv = #[trigger] view_chunks(chunks@)[i];
                &&& cv.id == i
                &&& cv.size == cv.data.len()
                &&& is_sealed_for(key@, cv.data, plain_slice(data@, i))
            } by {
                if i < prev.len() {
                    assert(view_chunks(chunks@)[i] == view_chunks(prev)[i]);
                } else {
                    assert(view_chunks(chunks@)[i].data == sealed_view);
                }
            }
        }
        id = id + 1;
        offset = end;
    }
    proof {
        lemma_chunk_count_unique(data@.len(), id as nat);
    }
    ChunkedEncryptedModelFile {
        algorithm: "AES-256-CBC-Chunked".to_owned(),
        chunk_size: CHUNK_SIZE,
        total_chunks: id,
        original_size: data.len(),
        chunks,
    }
}

/// Whether some record carries the given identifier.
pub open spec fn has_chunk_with_id(chunks: Seq<ChunkView>, id: int) -> bool {
    exists|j: int| 0 <= j < chunks.len() && (#[trigger] chunks[j]).id == id
}

/// A well-formed chunk set: as many records as declared, identifiers exactly
/// the range below the declared count with no duplicates, and every declared
/// size matching its payload.
pub open spec fn chunks_well_formed(chunks: Seq<ChunkView>, total: int) -> bool {
    &&& chunks.len() == total
    &&& forall|i: int| 0 <= i < chunks.len() ==> 0 <= (#[trigger] chunks[i]).id < total
    &&& forall|i: int, j: int|
        0 <= i < chunks.len() && 0 <= j < chunks.len() && i != j ==> (#[trigger] chunks[i]).id != (
        #[trigger] chunks[j]).id
    &&& forall|i: int| 0 <= i < chunks.len() ==> (#[trigger] chunks[i]).size == chunks[i].data.len()
    &&& forall|id: int| 0 <= id < total ==> #[trigger] has_chunk_with_id(chunks, id)
}

/// The payload of the record carrying the given identifier.
pub open spec fn data_for_id(chunks: Seq<ChunkView>, id: int) -> Seq<u8> {
    chunks[choose|j: int| 0 <= j < chunks.len() && (#[trigger] chunks[j]).id == id].data
}

/// With unique identifiers, the record at `j` is the one its identifier names.
proof fn lemma_data_for_id(chunks: Seq<ChunkView>, j: int)
    requires
        0 <= j < chunks.len(),
        forall|a: int, b: int|
            0 <= a < chunks.len() && 0 <= b < chunks.len() && a != b ==> (
            #[trigger] chunks[a]).id != (#[trigger] chunks[b]).id,
    ensures
        data_for_id(chunks, chunks[j].id) == chunks[j].data,
{
    let id = chunks[j].id;
    assert(0 <= j < chunks.len() && chunks[j].id == id);
    let j2 = choose|j2: int| 0 <= j2 < chunks.len() && (#[trigger] chunks[j2]).id == id;
    assert(j2 == j);
}

/// The plaintexts of the records in identifier order, concatenated; the
/// first record that fails to open fails the whole run.
pub open spec fn unseal_chunks(key: Seq<u8>, chunks: Seq<ChunkView>, n: int) -> Result<
    Seq<u8>,
    TeeError,
>
    decreases n,
{
    if n <= 0 {
        Ok(Seq::empty())
    } else {
        match unseal_chunks(key, chunks, n - 1) {
            Err(e) => Err(e),
            Ok(prefix) => match unseal(key, data_for_id(chunks, n - 1)) {
                Err(e) => Err(e),
                Ok(p) => Ok(prefix + p),
            },
        }
    }
}

/// Once the run has failed, taking more records changes nothing.
proof fn lemma_unseal_chunks_stays_err(key: Seq<u8>, chunks: Seq<ChunkView>, n: int, m: int)
    requires
        0 <= n <= m,
        unseal_chunks(key, chunks, n) is Err,
    ensures
        unseal_chunks(key, chunks, m) == unseal_chunks(key, chunks, n),
    decreases m,
{
    if m > n {
        lemma_unseal_chunks_stays_err(key, chunks, n, m - 1);
    }
}

/// The exact outcome of reconstructing a chunked file: a malformed chunk set
/// is refused as `BadParameters`; with no key and records to open, the run
/// fails as decryption does with no key; otherwise the records are opened in
/// identifier order and the concatenation must match the declared size.
pub open spec fn reconstruct_spec(
    key: Option<Seq<u8>>,
    chunks: Seq<ChunkView>,
    total: int,
    original_size: int,
) -> Result<Seq<u8>, TeeError> {
    if !chunks_well_formed(chunks, total) {
        Err(TeeError::BadParameters)
    } else if key is None && total > 0 {
        Err(TeeError::ItemNotFound)
    } else {
        let folded = if total == 0 {
            Ok(Seq::<u8>::empty())
        } else {
            unseal_chunks(key->0, chunks, total)
        };
        match folded {
            Err(e) => Err(e),
            Ok(p) => if p.len() == original_size {
                Ok(p)
            } else {
                Err(TeeError::BadParameters)
            },
        }
    }
}

/// The chunk set is a sealed chunking of the plaintext `p`: well-formed, as
/// many records as `p` cuts into, and the record of each identifier seals
/// exactly the corresponding plaintext slice under the key.
pub open spec fn is_sealed_chunking(
    key: Seq<u8>,
    chunks: Seq<ChunkView>,
    total: int,
    original_size: int,
    p: Seq<u8>,
) -> bool {
    &&& chunks_well_formed(chunks, total)
    &&& p.len() == original_size
    &&& total == chunk_count(p.len())
    &&& forall|i: int|
        0 <= i < total ==> is_sealed_for(key, #[trigger] data_for_id(chunks, i), plain_slice(p, i))
}

/// Reconstruction depends only on what each identifier carries: two chunk
/// sets that map every identifier to the same payload — the same records
/// delivered in any order — reconstruct identically.
pub proof fn lemma_chunk_order_independence(
    key: Option<Seq<u8>>,
    c1: Seq<ChunkView>,
    c2: Seq<ChunkView>,
    total: int,
    original_size: int,
)
    requires
        chunks_well_formed(c1, total),
        chunks_well_formed(c2, total),
        forall|id: int|
            0 <= id < total ==> #[trigger] data_for_id(c1, id) == data_for_id(c2, id),
    ensures
        reconstruct_spec(key, c1, total, original_size) == reconstruct_spec(
            key,
            c2,
            total,
            original_size,
        ),
{
    if key is Some && total > 0 {
        lemma_unseal_chunks_same(key->0, c1, c2, total, total);
    }
}

/// The end-to-end guarantee of the chunked form: a chunk set shaped as
/// `build_chunked_model_file` promises — ids in cutting order, declared sizes
/// true, every slice sealed under the key — is a sealed chunking of the
/// plaintext, so `decrypt_chunked_model` returns exactly that plaintext.
pub proof fn lemma_built_chunks_are_sealed_chunking(
    key: Seq<u8>,
    data: Seq<u8>,
    chunks: Seq<ChunkView>,
)
    requires
        chunks.len() == chunk_count(data.len()),
        forall|i: int|
            0 <= i < chunks.len() ==> {
                let cv = #[trigger] chunks[i];
                &&& cv.id == i
                &&& cv.size == cv.data.len()
                &&& is_sealed_for(key, cv.data, plain_slice(data, i))
            },
    ensures
        is_sealed_chunking(key, chunks, chunks.len() as int, data.len() as int, data),
{
    let total = chunks.len() as int;
    assert forall|id: int| 0 <= id < total implies #[trigger] has_chunk_with_id(chunks, id) by {
        assert(chunks[id].id == id);
    }
    assert(chunks_well_formed(chunks, total));
    assert forall|i: int|
        0 <= i < total implies is_sealed_for(
        key,
        #[trigger] data_for_id(chunks, i),
        plain_slice(data, i),
    ) by {
        lemma_data_for_id(chunks, i);
    }
}

/// Delivering the same records in another order changes nothing: a chunk set
/// holding exactly the records of a well-formed one — in any order — is
/// well-formed itself and carries the same payload for every identifier, so
/// by `lemma_chunk_order_independence` it reconstructs identically.
pub proof fn lemma_permuted_chunks_agree(c1: Seq<ChunkView>, c2: Seq<ChunkView>, total: int)
    requires
        chunks_well_formed(c1, total),
        c1.to_multiset() == c2.to_multiset(),
    ensures
        chunks_well_formed(c2, total),
        forall|id: int|
            0 <= id < total ==> #[trigger] data_for_id(c1, id) == data_for_id(c2, id),
{
    broadcast use vstd::seq_lib::group_to_multiset_ensures;

    assert(c2.len() == total) by {
        assert(c1.to_multiset().len() == c1.len());
    }
    assert forall|j: int|
        0 <= j < c2.len() implies 0 <= (#[trigger] c2[j]).id < total && c2[j].size
        == c2[j].data.len() by {
        assert(c2.contains(c2[j]));
        assert(c2.to_multiset().count(c2[j]) > 0);
        assert(c1.contains(c2[j]));
        assert(c2.to_multiset().count(c2[j]) > 0);
        assert(c1.to_multiset().count(c2[j]) > 0);
        let i = choose|i: int| 0 <= i < c1.len() && c1[i] == c2[j];
        assert(0 <= c1[i].id < total);
    }
    assert(c1.no_duplicates()) by {
        assert forall|a: int, b: int|
            0 <= a < c1.len() && 0 <= b < c1.len() && a != b implies c1[a] != c1[b] by {
            assert(c1[a].id != c1[b].id);
        }
    }
    assert(c2.no_duplicates()) by {
        c1.lemma_multiset_has_no_duplicates();
        c2.lemma_multiset_has_no_duplicates_conv();
    }
    assert forall|a: int, b: int|
        0 <= a < c2.len() && 0 <= b < c2.len() && a != b implies (#[trigger] c2[a]).id != (
    #[trigger] c2[b]).id by {
        if c2[a].id == c2[b].id {
            assert(c2[a] != c2[b]);
            assert(c2.contains(c2[a]) && c2.contains(c2[b]));
            assert(c2.to_multiset().count(c2[a]) > 0 && c2.to_multiset().count(c2[b]) > 0);
            assert(c1.to_multiset().count(c2[a]) > 0 && c1.to_multiset().count(c2[b]) > 0);
            assert(c1.contains(c2[a]) && c1.contains(c2[b]));
            let ia = choose|i: int| 0 <= i < c1.len() && c1[i] == c2[a];
            let ib = choose|i: int| 0 <= i < c1.len() && c1[i] == c2[b];
            assert(ia != ib);
            assert(c1[ia].id != c1[ib].id);
        }
    }
    assert forall|id: int| 0 <= id < total implies #[trigger] has_chunk_with_id(c2, id) by {
        assert(has_chunk_with_id(c1, id));
        let i = choose|i: int| 0 <= i < c1.len() && (#[trigger] c1[i]).id == id;
        assert(c1.contains(c1[i]));
        assert(c1.to_multiset().count(c1[i]) > 0);
        assert(c2.to_multiset().count(c1[i]) > 0);
        assert(c2.contains(c1[i]));
        let j = choose|j: int| 0 <= j < c2.len() && c2[j] == c1[i];
        assert(0 <= j < c2.len() && c2[j].id == id);
    }
    assert forall|id: int|
        0 <= id < total implies #[trigger] data_for_id(c1, id) == data_for_id(c2, id) by {
        assert(has_chunk_with_id(c1, id));
        assert(has_chunk_with_id(c2, id));
        let i = choose|i: int| 0 <= i < c1.len() && (#[trigger] c1[i]).id == id;
        let j = choose|j: int| 0 <= j < c2.len() && (#[trigger] c2[j]).id == id;
        assert(c2.contains(c2[j]));
        assert(c2.to_multiset().count(c2[j]) > 0);
        assert(c1.to_multiset().count(c2[j]) > 0);
        assert(c1.contains(c2[j]));
        let i2 = choose|i2: int| 0 <= i2 < c1.len() && c1[i2] == c2[j];
        assert(c1[i2].id == id);
        assert(i2 == i);
        assert(data_for_id(c1, id) == c1[i].data);
        assert(data_for_id(c2, id) == c2[j].data);
    }
}

/// Helper induction for order independence: the identifier-ordered folds agree.
proof fn lemma_unseal_chunks_same(
    key: Seq<u8>,
    c1: Seq<ChunkView>,
    c2: Seq<ChunkView>,
    total: int,
    n: int,
)
    requires
        n <= total,
        forall|id: int|
            0 <= id < total ==> #[trigger] data_for_id(c1, id) == data_for_id(c2, id),
    ensures
        unseal_chunks(key, c1, n) == unseal_chunks(key, c2, n),
    decreases n,
{
    if n > 0 {
        lemma_unseal_chunks_same(key, c1, c2, total, n - 1);
    }
}

/// Checks a chunked file's records against their declarations and finds, for
/// each identifier, the record that carries it. Any miscount, out-of-range or
/// duplicate identifier, missing identifier, or size mismatch is malformed
/// input and refused whole.
fn validate_chunks(file: &ChunkedEncryptedModelFile) -> (r: Result<Vec<usize>, TeeError>)
    ensures
        ({
            let cviews = view_chunks(file.chunks@);
            &&& (r is Ok <==> chunks_well_formed(cviews, file.total_chunks as int))
            &&& (r is Ok ==> {
                let idx = r->Ok_0@;
                &&& idx.len() == file.total_chunks
                &&& forall|id: int|
                    0 <= id < idx.len() ==> (#[trigger] idx[id]) < cviews.len() && cviews[idx[id] as int].id
                        == id
            })
            &&& (r is Err ==> r->Err_0 == TeeError::BadParameters)
        }),
{
    let ghost cviews = view_chunks(file.chunks@);
    let total = file.total_chunks;
    if file.chunks.len() != total {
        return Err(TeeError::BadParameters);
    }
    let mut seen: Vec<bool> = Vec::new();
    let mut idx_of: Vec<usize> = Vec::new();
    let mut k: usize = 0;
    while k < total
        invariant
            seen@.len() == k,
            idx_of@.len() == k,
            k <= total,
            forall|id: int| 0 <= id < k ==> !(#[trigger] seen@[id]),
        decreases total - k,
    {
        seen.push(false);
        idx_of.push(0);
        k = k + 1;
    }
    let mut j: usize = 0;
    while j < file.chunks.len()
        invariant
            cviews == view_chunks(file.chunks@),
            cviews.len() == file.chunks@.len() == total,
            j <= total,
            seen@.len() == total,
            idx_of@.len() == total,
            forall|id: int|
                0 <= id < total ==> ((#[trigger] seen@[id]) <==> exists|j2: int|
                    0 <= j2 < j && (#[trigger] cviews[j2]).id == id),
            forall|id: int|
                0 <= id < total && seen@[id] ==> (#[trigger] idx_of@[id]) < j && cviews[idx_of@[id] as int].id
                    == id,
            forall|a: int|
                0 <= a < j ==> 0 <= (#[trigger] cviews[a]).id < total && cviews[a].size
                    == cviews[a].data.len(),
            forall|a: int, b: int|
                0 <= a < j && 0 <= b < j && a != b ==> (#[trigger] cviews[a]).id != (
                #[trigger] cviews[b]).id,
        decreases file.chunks@.len() - j,
    {
        let c = &file.chunks[j];
        assert(c@ == cviews[j as int]);
        if c.id >= total {
            return Err(TeeError::BadParameters);
        }
        if c.size != c.data.len() {
            return Err(TeeError::BadParameters);
        }
        if seen[c.id] {
            let ghost j2 = choose|j2: int| 0 <= j2 < j && (#[trigger] cviews[j2]).id == c.id as int;
            assert(j2 != j && cviews[j2].id == cviews[j as int].id);
            return Err(TeeError::BadParameters);
        }
        seen.set(c.id, true);
        idx_of.set(c.id, j);
        proof {
            assert forall|id: int|
                0 <= id < total implies ((#[trigger] seen@[id]) <==> exists|j2: int|
                0 <= j2 < j + 1 && (#[trigger] cviews[j2]).id == id) by {
                if id == c.id as int {
                    assert(cviews[j as int].id == id);
                } else {
                    if exists|j2: int| 0 <= j2 < j + 1 && (#[trigger] cviews[j2]).id == id {
                        let j2 = choose|j2: int|
                            0 <= j2 < j + 1 && (#[trigger] cviews[j2]).id == id;
                        assert(j2 < j);
                        assert(exists|j3: int| 0 <= j3 < j && (#[trigger] cviews[j3]).id == id);
                    }
                }
            }
        }
        j = j + 1;
    }
    let mut id: usize = 0;
    while id < total
        invariant
            cviews == view_chunks(file.chunks@),
            cviews.len() == total,
            id <= total,
            seen@.len() == total,
            idx_of@.len() == total,
            forall|id2: int|
                0 <= id2 < total ==> ((#[trigger] seen@[id2]) <==> has_chunk_with_id(
                    cviews,
                    id2,
                )),
            forall|id2: int|
                0 <= id2 < total && seen@[id2] ==> (#[trigger] idx_of@[id2]) < total && cviews[idx_of@[id2] as int].id
                    == id2,
            forall|id2: int| 0 <= id2 < id ==> #[trigger] seen@[id2],
            forall|a: int|
                0 <= a < total ==> 0 <= (#[trigger] cviews[a]).id < total && cviews[a].size
                    == cviews[a].data.len(),
            forall|a: int, b: int|
                0 <= a < total && 0 <= b < total && a != b ==> (#[trigger] cviews[a]).id != (
                #[trigger] cviews[b]).id,
        decreases total - id,
    {
        if !seen[id] {
            assert(!has_chunk_with_id(cviews, id as int));
            return Err(TeeError::BadParameters);
        }
        id = id + 1;
    }
    proof {
        assert forall|id2: int| 0 <= id2 < total implies #[trigger] has_chunk_with_id(
            cviews,
            id2,
        ) by {
            assert(seen@[id2]);
        }
        assert(chunks_well_formed(cviews, total as int));
    }
    Ok(idx_of)
}

/// Reconstructs and decrypts a chunked file: the records, ordered by their
/// identifiers, are each opened on their own with the active key and the
/// plaintexts concatenated; the result must be exactly as long as the file
/// declares. Whenever the records are a sealed chunking of some plaintext
/// under the active key, exactly that plaintext comes back.
pub fn decrypt_chunked_model(km: &KeyManager, file: &ChunkedEncryptedModelFile) -> (r: Result<
    Vec<u8>,
    TeeError,
>)
    requires
        km.wf(),
    ensures
        ({
            let rr = reconstruct_spec(
                km@,
                view_chunks(file.chunks@),
                file.total_chunks as int,
                file.original_size as int,
            );
            match r {
                Ok(v) => rr == Ok::<Seq<u8>, TeeError>(v@),
                Err(e) => rr == Err::<Seq<u8>, TeeError>(e),
            }
        }),
        km@ matches Some(k) ==> forall|p: Seq<u8>|
            #[trigger] is_sealed_chunking(
                k,
                view_chunks(file.chunks@),
                file.total_chunks as int,
                file.original_size as int,
                p,
            ) ==> r is Ok && r->Ok_0@ == p,
{
    let ghost cviews = view_chunks(file.chunks@);
    let ghost total_g = file.total_chunks as int;
    let ghost osize = file.original_size as int;
    let idx_of = match validate_chunks(file) {
        Ok(v) => v,
        Err(e) => {
            return Err(e);
        },
    };
    let total = file.total_chunks;
    proof {
        if total_g > 0 {
            lemma_chunk_count(file.original_size as nat);
        }
    }
    let mut out: Vec<u8> = Vec::new();
    let mut i: usize = 0;
    while i < total
        invariant
            km.wf(),
            cviews == view_chunks(file.chunks@),
            total == file.total_chunks,
            osize == file.original_size as int,
            chunks_well_formed(cviews, total as int),
            idx_of@.len() == total,
            forall|id: int|
                0 <= id < total ==> (#[trigger] idx_of@[id]) < cviews.len() && cviews[idx_of@[id] as int].id
                    == id,
            i <= total,
            i > 0 ==> km@ is Some,
            i == 0 ==> out@ == Seq::<u8>::empty(),
            km@ matches Some(k) ==> unseal_chunks(k, cviews, i as int) == Ok::<Seq<u8>, TeeError>(
                out@,
            ),
            km@ matches Some(k) ==> forall|p: Seq<u8>|
                #[trigger] is_sealed_chunking(k, cviews, total as int, osize, p) ==> out@
                    == p.take(
                    if i as int * CHUNK_SIZE <= p.len() {
                        i as int * CHUNK_SIZE
                    } else {
                        p.len() as int
                    },
                ),
        decreases total - i,
    {
        let j = idx_of[i];
        let c = &file.chunks[j];
        proof {
            assert(c@ == cviews[j as int]);
            lemma_data_for_id(cviews, j as int);
            assert(data_for_id(cviews, i as int) == c.data@);
        }
        let dec = km.decrypt_data(c.data.as_slice());
        let ghost k = km@->0;
        let v = match dec {
            Ok(v) => v,
            Err(e) => {
                proof {
                    if km@ is Some {
                        assert(unseal_chunks(k, cviews, i as int + 1) == Err::<Seq<u8>, TeeError>(
                            e,
                        ));
                        lemma_unseal_chunks_stays_err(k, cviews, i as int + 1, total as int);
                        assert forall|p: Seq<u8>|
                            !is_sealed_chunking(k, cviews, total as int, osize, p) by {
                            if is_sealed_chunking(k, cviews, total as int, osize, p) {
                                assert(is_sealed_for(
                                    k,
                                    data_for_id(cviews, i as int),
                                    plain_slice(p, i as int),
                                ));
                            }
                        }
                    }
                }
                return Err(e);
            },
        };
        let ghost out_old = out@;
        out.extend_from_slice(v.as_slice());
        proof {
            assert(out@ =~= out_old + v@);
            assert(unseal_chunks(k, cviews, i as int + 1) == Ok::<Seq<u8>, TeeError>(
                out_old + v@,
            ));
            lemma_chunk_count(osize as nat);
            assert forall|p: Seq<u8>|
                #[trigger] is_sealed_chunking(k, cviews, total as int, osize, p) implies out@
                == p.take(
                if (i + 1) as int * CHUNK_SIZE <= p.len() {
                    (i + 1) as int * CHUNK_SIZE
                } else {
                    p.len() as int
                },
            ) by {
                assert(is_sealed_for(k, data_for_id(cviews, i as int), plain_slice(p, i as int)));
                assert(v@ == plain_slice(p, i as int));
                if p.len() > 0 {
                    lemma_mul_inequality(i as int, total as int - 1, CHUNK_SIZE as int);
                    lemma_chunk_count(p.len());
                }
                assert(out_old + v@ =~= p.take(
                    if (i + 1) as int * CHUNK_SIZE <= p.len() {
                        (i + 1) as int * CHUNK_SIZE
                    } else {
                        p.len() as int
                    },
                ));
            }
        }
        i = i + 1;
    }
    if out.len() != file.original_size {
        proof {
            assert(reconstruct_spec(km@, cviews, total as int, osize) == Err::<Seq<u8>, TeeError>(
                TeeError::BadParameters,
            ));
            if km@ is Some {
                let k = km@->0;
                assert forall|p: Seq<u8>|
                    !is_sealed_chunking(k, cviews, total as int, osize, p) by {
                    if is_sealed_chunking(k, cviews, total as int, osize, p) {
                        lemma_chunk_count(p.len());
                        assert(out@ == p.take(p.len() as int));
                        assert(p.take(p.len() as int) =~= p);
                    }
                }
            }
        }
        return Err(TeeError::BadParameters);
    }
    proof {
        assert(reconstruct_spec(km@, cviews, total as int, osize) == Ok::<Seq<u8>, TeeError>(out@));
        if km@ is Some {
            let k = km@->0;
            assert forall|p: Seq<u8>|
                #[trigger] is_sealed_chunking(k, cviews, total as int, osize, p) implies out@
                == p by {
                lemma_chunk_count(p.len());
                assert(out@ == p.take(p.len() as int));
                assert(p.take(p.len() as int) =~= p);
            }
        }
    }
    Ok(out)
}

} // verus!
