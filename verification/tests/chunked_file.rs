//! The chunked persisted form: cutting, identifier-ordered reconstruction,
//! order independence, and the rejection of every malformed chunk set.

use enclave_model::errors::TeeError;
use enclave_model::key_manager::KeyManager;
use enclave_model::model_file::{
    build_chunked_model_file, build_encrypted_model_file, decrypt_chunked_model,
    encrypt_with_key_host, ChunkedEncryptedModelFile,
};
use enclave_model::CHUNK_SIZE;

fn test_key() -> Vec<u8> {
    (50u8..82).collect()
}

fn manager_with_key() -> KeyManager {
    let mut km = KeyManager::new();
    km.import_aes_key(&test_key());
    km
}

fn sample(len: usize) -> Vec<u8> {
    (0..len as u64).map(|i| (i % 239) as u8).collect()
}

/// The end-to-end scenario: a 2 MB plaintext produces a chunked file whose
/// chunk size is the configured constant and whose chunk count is the
/// covering count; reconstructing and decrypting every chunk in the enclave
/// yields exactly the original bytes.
#[test]
fn two_megabyte_model_chunks_and_reconstructs() {
    let data = sample(2_000_000);
    let file = build_chunked_model_file(&test_key(), &data);
    assert_eq!(file.algorithm, "AES-256-CBC-Chunked");
    assert_eq!(file.chunk_size, CHUNK_SIZE);
    assert_eq!(file.original_size, 2_000_000);
    assert_eq!(file.total_chunks, 2_000_000usize.div_ceil(CHUNK_SIZE));
    assert_eq!(file.total_chunks, 31);
    assert_eq!(file.chunks.len(), 31);
    for (i, c) in file.chunks.iter().enumerate() {
        assert_eq!(c.id, i);
        assert_eq!(c.size, c.data.len());
    }
    let km = manager_with_key();
    assert_eq!(decrypt_chunked_model(&km, &file).unwrap(), data);
}

/// Delivering the records out of order must reconstruct the same plaintext
/// as in-order delivery.
#[test]
fn reconstruction_is_chunk_order_independent() {
    let data = sample(2 * CHUNK_SIZE + 77);
    let mut file = build_chunked_model_file(&test_key(), &data);
    assert_eq!(file.total_chunks, 3);
    let c0 = file.chunks.remove(0);
    let c1 = file.chunks.remove(0);
    let c2 = file.chunks.remove(0);
    file.chunks.push(c2);
    file.chunks.push(c0);
    file.chunks.push(c1);
    let km = manager_with_key();
    assert_eq!(decrypt_chunked_model(&km, &file).unwrap(), data);
}

#[test]
fn empty_plaintext_gives_no_chunks() {
    let file = build_chunked_model_file(&test_key(), &[]);
    assert_eq!(file.total_chunks, 0);
    assert_eq!(file.original_size, 0);
    let km = manager_with_key();
    assert_eq!(decrypt_chunked_model(&km, &file).unwrap(), Vec::<u8>::new());
}

fn small_file() -> ChunkedEncryptedModelFile {
    build_chunked_model_file(&test_key(), &sample(CHUNK_SIZE + 10))
}

#[test]
fn miscounted_chunks_are_rejected() {
    let mut file = small_file();
    file.total_chunks = 3;
    let km = manager_with_key();
    assert_eq!(decrypt_chunked_model(&km, &file).unwrap_err(), TeeError::BadParameters);
}

#[test]
fn duplicate_chunk_id_is_rejected() {
    let mut file = small_file();
    file.chunks[1].id = 0;
    let km = manager_with_key();
    assert_eq!(decrypt_chunked_model(&km, &file).unwrap_err(), TeeError::BadParameters);
}

#[test]
fn out_of_range_chunk_id_is_rejected() {
    let mut file = small_file();
    file.chunks[1].id = 7;
    let km = manager_with_key();
    assert_eq!(decrypt_chunked_model(&km, &file).unwrap_err(), TeeError::BadParameters);
}

#[test]
fn size_mismatch_is_rejected() {
    let mut file = small_file();
    file.chunks[0].size += 1;
    let km = manager_with_key();
    assert_eq!(decrypt_chunked_model(&km, &file).unwrap_err(), TeeError::BadParameters);
}

#[test]
fn declared_original_size_must_match() {
    let mut file = small_file();
    file.original_size += 1;
    let km = manager_with_key();
    assert_eq!(decrypt_chunked_model(&km, &file).unwrap_err(), TeeError::BadParameters);
}

#[test]
fn reconstruction_without_key_fails() {
    let file = small_file();
    let km = KeyManager::new();
    assert_eq!(decrypt_chunked_model(&km, &file).unwrap_err(), TeeError::ItemNotFound);
}

#[test]
fn single_blob_file_round_trips() {
    let data = sample(5000);
    let file = build_encrypted_model_file(&test_key(), &data);
    assert_eq!(file.algorithm, "AES-256-CBC");
    let km = manager_with_key();
    assert_eq!(km.decrypt_data(&file.encrypted_data).unwrap(), data);
}

#[test]
fn host_driver_output_opens_in_the_enclave() {
    let data = sample(333);
    let sealed = encrypt_with_key_host(&test_key(), &data);
    assert_eq!(sealed.len() % 16, 0);
    let km = manager_with_key();
    assert_eq!(km.decrypt_data(&sealed).unwrap(), data);
}
