//! Every malformed ciphertext shape is refused with `BadParameters`, and
//! decryption without a key with `ItemNotFound`.

use aes::cipher::{Array, BlockModeEncrypt, KeyIvInit};
use enclave_model::errors::TeeError;
use enclave_model::key_manager::KeyManager;

fn test_key() -> Vec<u8> {
    (100u8..132).collect()
}

fn manager_with_key() -> KeyManager {
    let mut km = KeyManager::new();
    km.import_aes_key(&test_key());
    km
}

#[test]
fn decrypt_without_key_fails() {
    let km = KeyManager::new();
    assert_eq!(km.decrypt_data(&[0u8; 48]).unwrap_err(), TeeError::ItemNotFound);
}

#[test]
fn decrypt_shorter_than_two_blocks_fails() {
    let km = manager_with_key();
    assert_eq!(km.decrypt_data(&[]).unwrap_err(), TeeError::BadParameters);
    assert_eq!(km.decrypt_data(&[1u8; 16]).unwrap_err(), TeeError::BadParameters);
    assert_eq!(km.decrypt_data(&[1u8; 31]).unwrap_err(), TeeError::BadParameters);
}

#[test]
fn decrypt_unaligned_body_fails() {
    let km = manager_with_key();
    assert_eq!(km.decrypt_data(&[1u8; 35]).unwrap_err(), TeeError::BadParameters);
    assert_eq!(km.decrypt_data(&[1u8; 63]).unwrap_err(), TeeError::BadParameters);
}

/// A well-aligned blob whose decrypted length prefix asks for more bytes than
/// the payload holds is refused.
#[test]
fn decrypt_oversized_length_prefix_fails() {
    let mut payload = 9999u32.to_le_bytes().to_vec();
    payload.extend_from_slice(&[0u8; 12]);
    let iv = [5u8; 16];
    let mut body = payload;
    let mut enc = cbc::Encryptor::<aes::Aes256>::new_from_slices(&test_key(), &iv).unwrap();
    let (blocks, _) = Array::slice_as_chunks_mut(&mut body);
    enc.encrypt_blocks(blocks);
    let mut sealed = iv.to_vec();
    sealed.extend_from_slice(&body);
    let km = manager_with_key();
    assert_eq!(km.decrypt_data(&sealed).unwrap_err(), TeeError::BadParameters);
}

/// Tampering with the sealed blob under a different key yields garbage, never
/// the plaintext.
#[test]
fn decrypt_with_wrong_key_does_not_round_trip() {
    let mut km = manager_with_key();
    let sealed = km.encrypt_data(b"secret model bytes").unwrap();
    let mut other = KeyManager::new();
    other.import_aes_key(&(200u8..232).collect::<Vec<u8>>());
    match other.decrypt_data(&sealed) {
        Ok(v) => assert_ne!(v, b"secret model bytes".to_vec()),
        Err(e) => assert_eq!(e, TeeError::BadParameters),
    }
}
