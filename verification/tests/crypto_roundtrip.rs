//! Round trips through the key manager's sealing, and cross-checks of the
//! chained window encryption against a one-shot CBC reference.

use aes::cipher::{Array, BlockModeDecrypt, BlockModeEncrypt, KeyIvInit};
use enclave_model::errors::TeeError;
use enclave_model::key_manager::KeyManager;
use enclave_model::CHUNK_SIZE;

fn test_key() -> Vec<u8> {
    (0u8..32).collect()
}

fn manager_with_key() -> KeyManager {
    let mut km = KeyManager::new();
    km.import_aes_key(&test_key());
    km
}

fn round_trip(data: &[u8]) {
    let mut km = manager_with_key();
    let sealed = km.encrypt_data(data).unwrap();
    assert_eq!(sealed.len() % 16, 0);
    assert!(sealed.len() >= 32);
    let opened = km.decrypt_data(&sealed).unwrap();
    assert_eq!(opened, data.to_vec());
}

#[test]
fn round_trip_empty() {
    round_trip(&[]);
}

#[test]
fn round_trip_one_byte() {
    round_trip(&[0xab]);
}

#[test]
fn round_trip_one_block() {
    round_trip(&[7u8; 16]);
}

#[test]
fn round_trip_many_blocks() {
    let data: Vec<u8> = (0..1024u32).map(|i| (i % 251) as u8).collect();
    round_trip(&data);
}

#[test]
fn round_trip_unaligned() {
    round_trip(&[3u8; 33]);
}

#[test]
fn round_trip_across_windows() {
    let data: Vec<u8> = (0..(2 * CHUNK_SIZE + 5) as u32).map(|i| (i % 241) as u8).collect();
    round_trip(&data);
}

#[test]
fn encrypt_generates_key_when_absent() {
    let mut km = KeyManager::new();
    assert!(!km.has_aes_key());
    let sealed = km.encrypt_data(b"hello").unwrap();
    assert!(km.has_aes_key());
    assert_eq!(km.decrypt_data(&sealed).unwrap(), b"hello".to_vec());
}

fn cbc_one_shot_encrypt(key: &[u8], iv: &[u8], data: &[u8]) -> Vec<u8> {
    let mut out = data.to_vec();
    let mut enc = cbc::Encryptor::<aes::Aes256>::new_from_slices(key, iv).unwrap();
    let (blocks, rest) = Array::slice_as_chunks_mut(&mut out);
    assert!(rest.is_empty());
    enc.encrypt_blocks(blocks);
    out
}

fn cbc_one_shot_decrypt(key: &[u8], iv: &[u8], data: &[u8]) -> Vec<u8> {
    let mut out = data.to_vec();
    let mut dec = cbc::Decryptor::<aes::Aes256>::new_from_slices(key, iv).unwrap();
    let (blocks, rest) = Array::slice_as_chunks_mut(&mut out);
    assert!(rest.is_empty());
    dec.decrypt_blocks(blocks);
    out
}

fn framed_payload(data: &[u8]) -> Vec<u8> {
    let mut payload = (data.len() as u32).to_le_bytes().to_vec();
    payload.extend_from_slice(data);
    while payload.len() % 16 != 0 {
        payload.push(0);
    }
    payload
}

/// The chained window-by-window encryption must equal one contiguous CBC
/// stream: decrypting the whole body in a single reference call recovers the
/// framed payload, even when the plaintext spanned several windows.
#[test]
fn chaining_equals_one_shot_reference() {
    let data: Vec<u8> = (0..(CHUNK_SIZE + 1000) as u32).map(|i| (i % 199) as u8).collect();
    let mut km = manager_with_key();
    let sealed = km.encrypt_data(&data).unwrap();
    let (iv, body) = sealed.split_at(16);
    let plain = cbc_one_shot_decrypt(&test_key(), iv, body);
    assert_eq!(plain, framed_payload(&data));
}

/// A blob sealed entirely by the reference implementation must open.
#[test]
fn decrypt_accepts_reference_sealed_blob() {
    let data = b"the quick brown fox jumps over the lazy dog";
    let payload = framed_payload(data);
    let iv = [9u8; 16];
    let body = cbc_one_shot_encrypt(&test_key(), &iv, &payload);
    let mut sealed = iv.to_vec();
    sealed.extend_from_slice(&body);
    let km = manager_with_key();
    assert_eq!(km.decrypt_data(&sealed).unwrap(), data.to_vec());
}

/// Every sealing draws a fresh IV: two seals of the same plaintext differ.
#[test]
fn repeated_encryption_differs_in_iv() {
    let mut km = manager_with_key();
    let a = km.encrypt_data(b"same plaintext").unwrap();
    let b = km.encrypt_data(b"same plaintext").unwrap();
    assert_eq!(a.len(), b.len());
    assert_ne!(a, b);
    assert_eq!(km.decrypt_data(&a).unwrap(), km.decrypt_data(&b).unwrap());
}

#[test]
fn export_returns_imported_key() {
    let km = manager_with_key();
    assert_eq!(km.export_aes_key().unwrap(), test_key());
}

#[test]
fn export_without_key_fails() {
    let km = KeyManager::new();
    assert_eq!(km.export_aes_key().unwrap_err(), TeeError::ItemNotFound);
}

#[test]
fn require_key_reports_presence() {
    let mut km = KeyManager::new();
    assert_eq!(km.require_aes_key().unwrap_err(), TeeError::ItemNotFound);
    km.generate_aes_key();
    assert!(km.require_aes_key().is_ok());
    assert_eq!(km.export_aes_key().unwrap().len(), 32);
}
