//! Secure storage semantics: create-or-overwrite, exact reads, existence
//! probes, and the key object's size validation.

use enclave_model::errors::TeeError;
use enclave_model::secure_storage::{ObjectId, SecureStorage};

#[test]
fn store_then_load_returns_exactly_the_bytes() {
    let mut s = SecureStorage::new();
    s.store(ObjectId::ModelBytes, b"some blob").unwrap();
    assert_eq!(s.load(ObjectId::ModelBytes).unwrap(), b"some blob".to_vec());
}

#[test]
fn second_store_overwrites_the_first() {
    let mut s = SecureStorage::new();
    s.store(ObjectId::ModelBytes, b"first").unwrap();
    s.store(ObjectId::ModelBytes, b"second").unwrap();
    assert_eq!(s.load(ObjectId::ModelBytes).unwrap(), b"second".to_vec());
}

#[test]
fn load_absent_object_fails() {
    let s = SecureStorage::new();
    assert_eq!(s.load(ObjectId::AesKey).unwrap_err(), TeeError::ItemNotFound);
    assert_eq!(s.load(ObjectId::ModelBytes).unwrap_err(), TeeError::ItemNotFound);
}

#[test]
fn existence_probe_never_fails_and_tracks_stores() {
    let mut s = SecureStorage::new();
    assert!(!s.ta_aes_key_exists());
    assert!(!s.model_bytes_exists());
    s.store_ta_aes_key(&[1u8; 32]).unwrap();
    assert!(s.ta_aes_key_exists());
    assert!(!s.model_bytes_exists());
    s.store_model_bytes(&[]).unwrap();
    assert!(s.model_bytes_exists());
}

#[test]
fn objects_are_independent() {
    let mut s = SecureStorage::new();
    s.store_ta_aes_key(&[2u8; 32]).unwrap();
    s.store_model_bytes(b"model").unwrap();
    s.store_ta_aes_key(&[3u8; 32]).unwrap();
    assert_eq!(s.load_model_bytes().unwrap(), b"model".to_vec());
    assert_eq!(s.load_ta_aes_key().unwrap(), vec![3u8; 32]);
}

#[test]
fn key_load_rejects_malformed_stored_object() {
    let mut s = SecureStorage::new();
    s.store(ObjectId::AesKey, &[9u8; 10]).unwrap();
    assert_eq!(s.load_ta_aes_key().unwrap_err(), TeeError::BadParameters);
}

#[test]
fn empty_model_bytes_round_trip() {
    let mut s = SecureStorage::new();
    s.store_model_bytes(&[]).unwrap();
    assert_eq!(s.load_model_bytes().unwrap(), Vec::<u8>::new());
}
