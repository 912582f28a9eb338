//! Enclave-side protection of machine-learning model bytes.
//!
//! A host delivers an AES-256-CBC encrypted model to a hardware-isolated
//! execution environment in bounded chunks; the enclave reassembles the
//! stream, decrypts it exactly once, installs the model, and persists both
//! the key and the plaintext bytes in enclave-private storage.

use vstd::prelude::*;

pub mod crypto;
pub mod enclave;
pub mod errors;
pub mod hex_key;
pub mod key_manager;
pub mod model_file;
pub mod nn_config;
pub mod proto;
pub mod secure_storage;

verus! {

/// Size in bytes of a symmetric key.
pub const AES_KEY_SIZE: usize = 32;

/// Size in bytes of one cipher block.
pub const AES_BLOCK_SIZE: usize = 16;

/// Bound in bytes on one transport window of ciphertext.
pub const CHUNK_SIZE: usize = 65536;

/// Size in bytes of one raw input image (28 by 28, one channel).
pub const IMAGE_SIZE: usize = 784;

/// How many classes the inference engine distinguishes.
pub const NUM_CLASSES: usize = 10;

} // verus!
