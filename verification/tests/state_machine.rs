//! The model-load state machine and the command dispatcher: ordering,
//! preconditions, lazy recovery, and the pinned push-before-begin policy.

use enclave_model::enclave::{EnclaveReply, EnclaveState, TaCommand};
use enclave_model::errors::TeeError;
use enclave_model::key_manager::KeyManager;
use enclave_model::secure_storage::SecureStorage;
use enclave_model::IMAGE_SIZE;

fn test_key() -> Vec<u8> {
    (10u8..42).collect()
}

fn sealed_model(data: &[u8]) -> Vec<u8> {
    let mut km = KeyManager::new();
    km.import_aes_key(&test_key());
    km.encrypt_data(data).unwrap()
}

#[test]
fn begin_without_key_fails() {
    let mut st = EnclaveState::new();
    assert_eq!(st.invoke_begin_model_load().unwrap_err(), TeeError::ItemNotFound);
}

#[test]
fn finalize_without_key_fails() {
    let mut st = EnclaveState::new();
    assert_eq!(st.invoke_finalize_model_load().unwrap_err(), TeeError::ItemNotFound);
}

#[test]
fn store_key_rejects_wrong_length() {
    let mut st = EnclaveState::new();
    assert_eq!(st.invoke_store_key(&[1u8; 31]).unwrap_err(), TeeError::BadParameters);
    assert_eq!(st.invoke_store_key(&[]).unwrap_err(), TeeError::BadParameters);
    assert!(st.invoke_store_key(&[1u8; 32]).is_ok());
}

/// The pinned policy: a push before any begin is accepted and lands in the
/// implicitly empty buffer; the next begin clears what it left behind.
#[test]
fn push_before_begin_accumulates_and_begin_clears() {
    let mut st = EnclaveState::new();
    assert!(st.invoke_push_encrypted_chunk(b"stray bytes").is_ok());
    st.invoke_store_key(&test_key()).unwrap();
    st.invoke_begin_model_load().unwrap();
    let model = b"model record";
    let sealed = sealed_model(model);
    for part in sealed.chunks(7) {
        st.invoke_push_encrypted_chunk(part).unwrap();
    }
    let plain = st.invoke_finalize_model_load().unwrap();
    assert_eq!(plain, model.to_vec());
}

#[test]
fn empty_push_is_a_no_op() {
    let mut st = EnclaveState::new();
    st.invoke_store_key(&test_key()).unwrap();
    st.invoke_begin_model_load().unwrap();
    let sealed = sealed_model(b"m");
    st.invoke_push_encrypted_chunk(&[]).unwrap();
    st.invoke_push_encrypted_chunk(&sealed).unwrap();
    st.invoke_push_encrypted_chunk(&[]).unwrap();
    assert_eq!(st.invoke_finalize_model_load().unwrap(), b"m".to_vec());
}

#[test]
fn begin_is_idempotent_before_pushes() {
    let mut st = EnclaveState::new();
    st.invoke_store_key(&test_key()).unwrap();
    st.invoke_begin_model_load().unwrap();
    st.invoke_begin_model_load().unwrap();
    let sealed = sealed_model(b"twice begun");
    st.invoke_push_encrypted_chunk(&sealed).unwrap();
    assert_eq!(st.invoke_finalize_model_load().unwrap(), b"twice begun".to_vec());
}

#[test]
fn failed_finalize_leaves_model_untouched() {
    let mut st = EnclaveState::new();
    st.invoke_store_key(&test_key()).unwrap();
    st.install_model(b"previous model").unwrap();
    st.invoke_begin_model_load().unwrap();
    st.invoke_push_encrypted_chunk(&[0u8; 17]).unwrap();
    assert_eq!(st.invoke_finalize_model_load().unwrap_err(), TeeError::BadParameters);
    let images = vec![0u8; IMAGE_SIZE];
    match st.invoke_inference(&images) {
        Ok(m) => assert_eq!(m, b"previous model".to_vec()),
        Err(e) => panic!("inference refused: {:?}", e),
    }
}

/// A failed finalize still consumes the accumulated stream: the next
/// finalize sees an empty buffer, not the leftovers.
#[test]
fn failed_finalize_consumes_the_buffer() {
    let mut st = EnclaveState::new();
    st.invoke_store_key(&test_key()).unwrap();
    st.invoke_push_encrypted_chunk(&[0u8; 17]).unwrap();
    assert_eq!(st.invoke_finalize_model_load().unwrap_err(), TeeError::BadParameters);
    assert_eq!(st.invoke_finalize_model_load().unwrap_err(), TeeError::BadParameters);
    let sealed = sealed_model(b"clean load");
    st.invoke_push_encrypted_chunk(&sealed).unwrap();
    assert_eq!(st.invoke_finalize_model_load().unwrap(), b"clean load".to_vec());
}

#[test]
fn inference_rejects_empty_and_misshapen_batches() {
    let mut st = EnclaveState::new();
    st.install_model(b"model").unwrap();
    assert_eq!(st.invoke_inference(&[]).unwrap_err(), TeeError::BadParameters);
    assert_eq!(st.invoke_inference(&[0u8; 100]).unwrap_err(), TeeError::BadParameters);
}

#[test]
fn inference_without_model_fails() {
    let mut st = EnclaveState::new();
    let images = vec![0u8; IMAGE_SIZE];
    assert_eq!(st.invoke_inference(&images).unwrap_err(), TeeError::CorruptObject);
}

/// Lazy recovery: after a restart that kept only storage, inference finds the
/// persisted model bytes and reinstalls them.
#[test]
fn inference_recovers_model_from_storage() {
    let mut storage = SecureStorage::new();
    storage.store_model_bytes(b"persisted model").unwrap();
    let mut st = EnclaveState::with_storage(storage);
    let images = vec![0u8; 2 * IMAGE_SIZE];
    assert_eq!(st.invoke_inference(&images).unwrap(), b"persisted model".to_vec());
}

#[test]
fn export_key_follows_storage() {
    let mut st = EnclaveState::new();
    assert_eq!(st.invoke_export_aes_key().unwrap_err(), TeeError::ItemNotFound);
    st.invoke_store_key(&test_key()).unwrap();
    assert_eq!(st.invoke_export_aes_key().unwrap(), test_key());
}

#[test]
fn encrypt_model_provisions_a_key_on_demand() {
    let mut st = EnclaveState::new();
    let sealed = st.invoke_encrypt_model(b"fresh model").unwrap();
    let key = st.invoke_export_aes_key().unwrap();
    let mut km = KeyManager::new();
    km.import_aes_key(&key);
    assert_eq!(km.decrypt_data(&sealed).unwrap(), b"fresh model".to_vec());
}

#[test]
fn encrypt_model_reuses_the_stored_key() {
    let mut st = EnclaveState::new();
    st.invoke_store_key(&test_key()).unwrap();
    let sealed = st.invoke_encrypt_model(b"again").unwrap();
    let mut km = KeyManager::new();
    km.import_aes_key(&test_key());
    assert_eq!(km.decrypt_data(&sealed).unwrap(), b"again".to_vec());
}

#[test]
fn dispatch_rejects_unknown_commands() {
    let mut st = EnclaveState::new();
    assert_eq!(st.dispatch(2, &[]).unwrap_err(), TeeError::BadParameters);
    assert_eq!(st.dispatch(8, &[]).unwrap_err(), TeeError::BadParameters);
    assert_eq!(st.dispatch(99, &[]).unwrap_err(), TeeError::BadParameters);
}

#[test]
fn dispatch_runs_the_whole_load_protocol() {
    let mut st = EnclaveState::new();
    match st.dispatch(3, &test_key()).unwrap() {
        EnclaveReply::Done => {},
        _ => panic!("store key must reply Done"),
    }
    match st.dispatch(4, &[]).unwrap() {
        EnclaveReply::Done => {},
        _ => panic!("begin must reply Done"),
    }
    let sealed = sealed_model(b"dispatched model");
    for part in sealed.chunks(11) {
        match st.dispatch(5, part).unwrap() {
            EnclaveReply::Done => {},
            _ => panic!("push must reply Done"),
        }
    }
    let plain = match st.dispatch(6, &[]).unwrap() {
        EnclaveReply::Bytes(v) => v,
        _ => panic!("finalize must reply with the plaintext"),
    };
    assert_eq!(plain, b"dispatched model".to_vec());
    st.install_model(&plain).unwrap();
    let images = vec![0u8; IMAGE_SIZE];
    match st.dispatch(0, &images).unwrap() {
        EnclaveReply::RunForwardPass(m) => assert_eq!(m, b"dispatched model".to_vec()),
        _ => panic!("infer must hand the model out"),
    }
    match st.dispatch(7, &[]).unwrap() {
        EnclaveReply::Bytes(k) => assert_eq!(k, test_key()),
        _ => panic!("export must reply with the key bytes"),
    }
}

#[test]
fn ta_command_mapping_is_the_dispatch_table() {
    assert_eq!(TaCommand::from_u32(0), Some(TaCommand::Infer));
    assert_eq!(TaCommand::from_u32(1), Some(TaCommand::EncryptModel));
    assert_eq!(TaCommand::from_u32(2), None);
    assert_eq!(TaCommand::from_u32(3), Some(TaCommand::StoreKey));
    assert_eq!(TaCommand::from_u32(4), Some(TaCommand::BeginModelLoad));
    assert_eq!(TaCommand::from_u32(5), Some(TaCommand::PushEncryptedChunk));
    assert_eq!(TaCommand::from_u32(6), Some(TaCommand::FinalizeModelLoad));
    assert_eq!(TaCommand::from_u32(7), Some(TaCommand::ExportAesKey));
    assert_eq!(TaCommand::from_u32(8), None);
}
