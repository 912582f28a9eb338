//! The enclave-resident state and its numbered-command dispatcher.
//!
//! The state a command may touch is explicit: the resident key manager, the
//! resident model bytes, the model accumulation buffer, and the secure store.
//! Every command either fully succeeds (state mutated as its contract says)
//! or fully fails (state unchanged). The inference engine itself is an
//! outside collaborator: the `Infer` command validates its input, resolves
//! the resident model — recovering it from storage after a restart — and
//! hands the model record out for the engine's forward pass.

use vstd::prelude::*;

use vstd::pervasive::unreached;

use crate::errors::TeeError;
use crate::key_manager::{is_sealed_for, unseal, KeyManager};
use crate::secure_storage::{load_spec, store_spec, ObjectId, SecureStorage};
use crate::{AES_BLOCK_SIZE, AES_KEY_SIZE, IMAGE_SIZE};

verus! {

/// The numbered commands the enclave dispatcher accepts.
#[derive(Clone, Copy, Debug, PartialEq, Eq, Structural)]
pub enum TaCommand {
    /// Run the forward pass over a batch of images.
    Infer,
    /// Encrypt a single in-memory buffer under the enclave's key.
    EncryptModel,
    /// Install and persist a caller-supplied key.
    StoreKey,
    /// Clear the accumulation buffer for a fresh load.
    BeginModelLoad,
    /// Append bytes to the accumulation buffer.
    PushEncryptedChunk,
    /// Decrypt the accumulated stream in one pass.
    FinalizeModelLoad,
    /// Return the raw persisted key bytes.
    ExportAesKey,
}

/// The command a numeric identifier names, if any.
pub open spec fn command_of_spec(id: u32) -> Option<TaCommand> {
    if id == 0 {
        Some(TaCommand::Infer)
    } else if id == 1 {
        Some(TaCommand::EncryptModel)
    } else if id == 3 {
        Some(TaCommand::StoreKey)
    } else if id == 4 {
        Some(TaCommand::BeginModelLoad)
    } else if id == 5 {
        Some(TaCommand::PushEncryptedChunk)
    } else if id == 6 {
        Some(TaCommand::FinalizeModelLoad)
    } else if id == 7 {
        Some(TaCommand::ExportAesKey)
    } else {
        None
    }
}

impl TaCommand {
    /// Maps a wire identifier to its command; unknown identifiers map to
    /// nothing and the dispatcher refuses them.
    pub fn from_u32(id: u32) -> (r: Option<TaCommand>)
        ensures
            r == command_of_spec(id),
    {
        if id == 0 {
            Some(TaCommand::Infer)
        } else if id == 1 {
            Some(TaCommand::EncryptModel)
        } else if id == 3 {
            Some(TaCommand::StoreKey)
        } else if id == 4 {
            Some(TaCommand::BeginModelLoad)
        } else if id == 5 {
            Some(TaCommand::PushEncryptedChunk)
        } else if id == 6 {
            Some(TaCommand::FinalizeModelLoad)
        } else if id == 7 {
            Some(TaCommand::ExportAesKey)
        } else {
            None
        }
    }
}

/// What the dispatcher hands back to the hosting layer.
#[derive(Debug)]
pub enum EnclaveReply {
    /// The command mutated state and produced no bytes.
    Done,
    /// The command produced bytes (ciphertext, key material, plaintext).
    Bytes(Vec<u8>),
    /// The inference input was accepted: the hosting layer is to run the
    /// engine's forward pass with this model record.
    RunForwardPass(Vec<u8>),
}

/// The enclave-resident mutable state, each resource an explicit field.
pub struct EnclaveState {
    key_manager: Option<KeyManager>,
    model: Option<Vec<u8>>,
    model_buf: Vec<u8>,
    storage: SecureStorage,
}

impl EnclaveState {
    /// The active key, if a key manager is resident.
    pub closed spec fn active_key(&self) -> Option<Seq<u8>> {
        match self.key_manager {
            Some(ref km) => km@,
            None => None,
        }
    }

    /// The resident model record, if one was installed.
    pub closed spec fn resident_model(&self) -> Option<Seq<u8>> {
        match self.model {
            Some(ref m) => Some(m@),
            None => None,
        }
    }

    /// The model accumulation buffer.
    pub closed spec fn buffer(&self) -> Seq<u8> {
        self.model_buf@
    }

    /// The secure store's contents.
    pub closed spec fn storage_view(&self) -> Map<ObjectId, Seq<u8>> {
        self.storage@
    }

    /// A resident key manager always holds a key, of exactly 32 bytes.
    pub closed spec fn wf(&self) -> bool {
        self.key_manager matches Some(km) ==> km.wf() && km@ is Some
    }

    /// What well-formedness means to a caller: the active key, if any, is
    /// exactly 32 bytes.
    pub proof fn lemma_wf_active_key(&self)
        requires
            self.wf(),
        ensures
            self.active_key() matches Some(k) ==> k.len() == AES_KEY_SIZE,
    {
    }
}

/// Why a key cannot be resolved right now: no key was ever persisted, or the
/// persisted object is malformed and no key is already active.
pub open spec fn key_resolution_error(
    storage: Map<ObjectId, Seq<u8>>,
    key: Option<Seq<u8>>,
) -> Option<TeeError> {
    if !storage.contains_key(ObjectId::AesKey) {
        Some(TeeError::ItemNotFound)
    } else if key is None && storage[ObjectId::AesKey].len() != AES_KEY_SIZE {
        Some(TeeError::BadParameters)
    } else {
        None
    }
}

/// The key that resolution yields: the already-active one, else the one
/// loaded from storage.
pub open spec fn resolved_key(
    storage: Map<ObjectId, Seq<u8>>,
    key: Option<Seq<u8>>,
) -> Option<Seq<u8>> {
    if key is Some {
        key
    } else if storage.contains_key(ObjectId::AesKey) && storage[ObjectId::AesKey].len()
        == AES_KEY_SIZE {
        Some(storage[ObjectId::AesKey])
    } else {
        None
    }
}

impl EnclaveState {
    /// What `store_key` does: a key of any length but 32 bytes is refused and
    /// nothing changes; a 32-byte key becomes active and is persisted.
    pub open spec fn store_key_post(
        pre: Self,
        post: Self,
        key: Seq<u8>,
        r: Result<(), TeeError>,
    ) -> bool {
        &&& post.resident_model() == pre.resident_model()
        &&& post.buffer() == pre.buffer()
        &&& if key.len() != AES_KEY_SIZE {
            &&& r == Err::<(), TeeError>(TeeError::BadParameters)
            &&& post.active_key() == pre.active_key()
            &&& post.storage_view() == pre.storage_view()
        } else {
            &&& r is Ok
            &&& post.active_key() == Some(key)
            &&& post.storage_view() == store_spec(pre.storage_view(), ObjectId::AesKey, key)
        }
    }

    /// What key resolution does: fails as `key_resolution_error` says and
    /// leaves the key alone, or succeeds with the resolved key active.
    pub open spec fn resolve_key_post(pre: Self, post: Self, r: Result<(), TeeError>) -> bool {
        &&& post.resident_model() == pre.resident_model()
        &&& post.buffer() == pre.buffer()
        &&& post.storage_view() == pre.storage_view()
        &&& match key_resolution_error(pre.storage_view(), pre.active_key()) {
            Some(e) => r == Err::<(), TeeError>(e) && post.active_key() == pre.active_key(),
            None => r is Ok && post.active_key() == resolved_key(
                pre.storage_view(),
                pre.active_key(),
            ),
        }
    }

    /// What `begin` does: key resolution, then — only on success — the
    /// accumulation buffer is cleared.
    pub open spec fn begin_post(pre: Self, post: Self, r: Result<(), TeeError>) -> bool {
        &&& post.resident_model() == pre.resident_model()
        &&& post.storage_view() == pre.storage_view()
        &&& match key_resolution_error(pre.storage_view(), pre.active_key()) {
            Some(e) => {
                &&& r == Err::<(), TeeError>(e)
                &&& post.active_key() == pre.active_key()
                &&& post.buffer() == pre.buffer()
            },
            None => {
                &&& r is Ok
                &&& post.active_key() == resolved_key(pre.storage_view(), pre.active_key())
                &&& post.buffer() == Seq::<u8>::empty()
            },
        }
    }

    /// What `push` does: the chunk is appended verbatim to the accumulation
    /// buffer, whatever its state — a push before any `begin` operates on the
    /// implicitly empty buffer — and an empty chunk changes nothing.
    pub open spec fn push_post(pre: Self, post: Self, chunk: Seq<u8>, r: Result<(), TeeError>) -> bool {
        &&& r is Ok
        &&& post.buffer() == pre.buffer() + chunk
        &&& post.active_key() == pre.active_key()
        &&& post.resident_model() == pre.resident_model()
        &&& post.storage_view() == pre.storage_view()
    }

    /// What `finalize` does: key resolution, then the accumulated stream is
    /// taken whole — the buffer is left empty — and opened with the resolved
    /// key, exactly as `unseal` says. The resident model is not touched here:
    /// installation follows only once the engine has accepted the record.
    pub open spec fn finalize_post(pre: Self, post: Self, r: Result<Seq<u8>, TeeError>) -> bool {
        &&& post.resident_model() == pre.resident_model()
        &&& post.storage_view() == pre.storage_view()
        &&& match key_resolution_error(pre.storage_view(), pre.active_key()) {
            Some(e) => {
                &&& r == Err::<Seq<u8>, TeeError>(e)
                &&& post.active_key() == pre.active_key()
                &&& post.buffer() == pre.buffer()
            },
            None => {
                &&& post.active_key() == resolved_key(pre.storage_view(), pre.active_key())
                &&& post.buffer() == Seq::<u8>::empty()
                &&& r == unseal(resolved_key(pre.storage_view(), pre.active_key())->0, pre.buffer())
            },
        }
    }

    /// What `install_model` does: the record becomes the resident model and
    /// its bytes are persisted, atomically.
    pub open spec fn install_model_post(
        pre: Self,
        post: Self,
        bytes: Seq<u8>,
        r: Result<(), TeeError>,
    ) -> bool {
        &&& r is Ok
        &&& post.resident_model() == Some(bytes)
        &&& post.storage_view() == store_spec(pre.storage_view(), ObjectId::ModelBytes, bytes)
        &&& post.active_key() == pre.active_key()
        &&& post.buffer() == pre.buffer()
    }

    /// What `export_key` returns: the persisted key bytes, `ItemNotFound`
    /// when none were ever stored, `BadParameters` when the stored object is
    /// malformed.
    pub open spec fn export_key_post(pre: Self, r: Result<Seq<u8>, TeeError>) -> bool {
        match load_spec(pre.storage_view(), ObjectId::AesKey) {
            Some(b) => if b.len() == AES_KEY_SIZE {
                r == Ok::<Seq<u8>, TeeError>(b)
            } else {
                r == Err::<Seq<u8>, TeeError>(TeeError::BadParameters)
            },
            None => r == Err::<Seq<u8>, TeeError>(TeeError::ItemNotFound),
        }
    }

    /// What `encrypt_model` does: the persisted key — generated and persisted
    /// on the spot when none exists — seals the buffer. The resident key
    /// manager is never touched: the command works against storage alone.
    pub open spec fn encrypt_model_post(
        pre: Self,
        post: Self,
        data: Seq<u8>,
        r: Result<Seq<u8>, TeeError>,
    ) -> bool {
        &&& post.active_key() == pre.active_key()
        &&& post.resident_model() == pre.resident_model()
        &&& post.buffer() == pre.buffer()
        &&& if pre.storage_view().contains_key(ObjectId::AesKey) {
            &&& post.storage_view() == pre.storage_view()
            &&& if pre.storage_view()[ObjectId::AesKey].len() == AES_KEY_SIZE {
                &&& r is Ok
                &&& is_sealed_for(pre.storage_view()[ObjectId::AesKey], r->Ok_0, data)
            } else {
                r == Err::<Seq<u8>, TeeError>(TeeError::BadParameters)
            }
        } else {
            &&& post.storage_view() == store_spec(
                pre.storage_view(),
                ObjectId::AesKey,
                post.storage_view()[ObjectId::AesKey],
            )
            &&& post.storage_view()[ObjectId::AesKey].len() == AES_KEY_SIZE
            &&& r is Ok
            &&& is_sealed_for(post.storage_view()[ObjectId::AesKey], r->Ok_0, data)
        }
    }

    /// What `infer` does with its input and the resident model: an empty or
    /// misshapen image batch is refused; otherwise the resident model record
    /// is handed out, recovered from storage first when a restart lost it.
    pub open spec fn infer_post(
        pre: Self,
        post: Self,
        images: Seq<u8>,
        r: Result<Seq<u8>, TeeError>,
    ) -> bool {
        &&& post.active_key() == pre.active_key()
        &&& post.buffer() == pre.buffer()
        &&& post.storage_view() == pre.storage_view()
        &&& if images.len() == 0 || images.len() % (IMAGE_SIZE as nat) != 0 {
            &&& r == Err::<Seq<u8>, TeeError>(TeeError::BadParameters)
            &&& post.resident_model() == pre.resident_model()
        } else {
            match pre.resident_model() {
                Some(m) => {
                    &&& r == Ok::<Seq<u8>, TeeError>(m)
                    &&& post.resident_model() == pre.resident_model()
                },
                None => match load_spec(pre.storage_view(), ObjectId::ModelBytes) {
                    Some(b) => r == Ok::<Seq<u8>, TeeError>(b) && post.resident_model() == Some(b),
                    None => {
                        &&& r == Err::<Seq<u8>, TeeError>(TeeError::CorruptObject)
                        &&& post.resident_model() == pre.resident_model()
                    },
                },
            }
        }
    }
}

impl EnclaveState {
    /// A fresh enclave process: nothing resident, nothing persisted.
    pub fn new() -> (r: Self)
        ensures
            r.wf(),
            r.active_key() is None,
            r.resident_model() is None,
            r.buffer() == Seq::<u8>::empty(),
            r.storage_view() == Map::<ObjectId, Seq<u8>>::empty(),
    {
        EnclaveState {
            key_manager: None,
            model: None,
            model_buf: Vec::new(),
            storage: SecureStorage::new(),
        }
    }

    /// Rebuilds the state around an existing store, as after an enclave
    /// restart: storage survived, nothing is resident.
    pub fn with_storage(storage: SecureStorage) -> (r: Self)
        ensures
            r.wf(),
            r.active_key() is None,
            r.resident_model() is None,
            r.buffer() == Seq::<u8>::empty(),
            r.storage_view() == storage@,
    {
        EnclaveState { key_manager: None, model: None, model_buf: Vec::new(), storage }
    }

    /// Installs and persists a caller-supplied 32-byte key; any other length
    /// is refused whole.
    pub fn invoke_store_key(&mut self, key_buf: &[u8]) -> (r: Result<(), TeeError>)
        requires
            old(self).wf(),
        ensures
            final(self).wf(),
            Self::store_key_post(*old(self), *final(self), key_buf@, r),
    {
        if key_buf.len() != AES_KEY_SIZE {
            return Err(TeeError::BadParameters);
        }
        let res = self.storage.store_ta_aes_key(key_buf);
        match res {
            Ok(_) => {},
            Err(_) => unreached(),
        }
        let mut km = KeyManager::new();
        km.import_aes_key(key_buf);
        self.key_manager = Some(km);
        Ok(())
    }

    /// Makes a key manager resident: fails with `ItemNotFound` when no key
    /// was ever persisted, loads the persisted key when none is active yet.
    pub fn ensure_key_manager(&mut self) -> (r: Result<(), TeeError>)
        requires
            old(self).wf(),
        ensures
            final(self).wf(),
            Self::resolve_key_post(*old(self), *final(self), r),
    {
        if !self.storage.ta_aes_key_exists() {
            return Err(TeeError::ItemNotFound);
        }
        if self.key_manager.is_none() {
            let k = self.storage.load_ta_aes_key()?;
            let mut km = KeyManager::new();
            km.import_aes_key(k.as_slice());
            self.key_manager = Some(km);
        }
        Ok(())
    }

    /// Begins a model load: requires a resolvable key, then clears the
    /// accumulation buffer. Idempotent before any push.
    pub fn invoke_begin_model_load(&mut self) -> (r: Result<(), TeeError>)
        requires
            old(self).wf(),
        ensures
            final(self).wf(),
            Self::begin_post(*old(self), *final(self), r),
    {
        let res = self.ensure_key_manager();
        match res {
            Ok(_) => {},
            Err(e) => {
                return Err(e);
            },
        }
        self.model_buf.clear();
        Ok(())
    }

    /// Appends raw bytes verbatim to the accumulation buffer; an empty chunk
    /// is a no-op. No decryption happens here.
    pub fn invoke_push_encrypted_chunk(&mut self, chunk: &[u8]) -> (r: Result<(), TeeError>)
        requires
            old(self).wf(),
        ensures
            final(self).wf(),
            Self::push_post(*old(self), *final(self), chunk@, r),
    {
        self.model_buf.extend_from_slice(chunk);
        proof {
            assert(self.model_buf@ =~= old(self).model_buf@ + chunk@);
        }
        Ok(())
    }

    /// Finalizes a model load: takes the accumulated ciphertext whole —
    /// leaving the buffer empty — and decrypts it in one pass with the
    /// resolved key. Whenever the stream was a sealing of some plaintext
    /// under that key, exactly that plaintext comes back.
    pub fn invoke_finalize_model_load(&mut self) -> (r: Result<Vec<u8>, TeeError>)
        requires
            old(self).wf(),
        ensures
            final(self).wf(),
            Self::finalize_post(
                *old(self),
                *final(self),
                match r {
                    Ok(v) => Ok(v@),
                    Err(e) => Err(e),
                },
            ),
            key_resolution_error(old(self).storage_view(), old(self).active_key()) is None
                ==> forall|p: Seq<u8>|
                #[trigger] is_sealed_for(
                    resolved_key(old(self).storage_view(), old(self).active_key())->0,
                    old(self).buffer(),
                    p,
                ) ==> r is Ok && r->Ok_0@ == p,
    {
        let res = self.ensure_key_manager();
        match res {
            Ok(_) => {},
            Err(e) => {
                return Err(e);
            },
        }
        let mut encrypted: Vec<u8> = Vec::new();
        core::mem::swap(&mut encrypted, &mut self.model_buf);
        let km = match &self.key_manager {
            Some(km) => km,
            None => unreached(),
        };
        km.decrypt_data(encrypted.as_slice())
    }

    /// Installs a model record as resident and persists its bytes. To be
    /// called only once the inference engine has accepted the record: a
    /// refused record is simply never installed, leaving any previously
    /// resident model untouched.
    pub fn install_model(&mut self, bytes: &[u8]) -> (r: Result<(), TeeError>)
        requires
            old(self).wf(),
        ensures
            final(self).wf(),
            Self::install_model_post(*old(self), *final(self), bytes@, r),
    {
        let res = self.storage.store_model_bytes(bytes);
        match res {
            Ok(_) => {},
            Err(_) => unreached(),
        }
        self.model = Some(vstd::slice::slice_to_vec(bytes));
        Ok(())
    }

    /// Returns the raw persisted key bytes — the explicit, sensitive export
    /// path. Fails with `ItemNotFound` when no key was ever persisted.
    pub fn invoke_export_aes_key(&self) -> (r: Result<Vec<u8>, TeeError>)
        requires
            self.wf(),
        ensures
            Self::export_key_post(
                *self,
                match r {
                    Ok(v) => Ok(v@),
                    Err(e) => Err(e),
                },
            ),
    {
        self.storage.load_ta_aes_key()
    }

    /// Encrypts one in-memory buffer under the persisted key, generating and
    /// persisting a fresh key first when none exists. The resident key
    /// manager is left alone.
    pub fn invoke_encrypt_model(&mut self, data: &[u8]) -> (r: Result<Vec<u8>, TeeError>)
        requires
            old(self).wf(),
            data@.len() <= u32::MAX,
            data@.len() + AES_BLOCK_SIZE + 4 <= usize::MAX,
        ensures
            final(self).wf(),
            Self::encrypt_model_post(
                *old(self),
                *final(self),
                data@,
                match r {
                    Ok(v) => Ok(v@),
                    Err(e) => Err(e),
                },
            ),
    {
        let mut km = KeyManager::new();
        if self.storage.ta_aes_key_exists() {
            let k = self.storage.load_ta_aes_key()?;
            km.import_aes_key(k.as_slice());
        } else {
            km.generate_aes_key();
            let k = match km.export_aes_key() {
                Ok(k) => k,
                Err(_) => unreached(),
            };
            let res = self.storage.store_ta_aes_key(k.as_slice());
            match res {
                Ok(_) => {},
                Err(_) => unreached(),
            }
        }
        km.encrypt_data(data)
    }

    /// Validates an inference input batch and resolves the model record the
    /// engine is to run on: the resident one, or — lazy recovery after a
    /// restart — the persisted bytes, which become resident.
    pub fn invoke_inference(&mut self, images: &[u8]) -> (r: Result<Vec<u8>, TeeError>)
        requires
            old(self).wf(),
        ensures
            final(self).wf(),
            Self::infer_post(
                *old(self),
                *final(self),
                images@,
                match r {
                    Ok(v) => Ok(v@),
                    Err(e) => Err(e),
                },
            ),
    {
        if images.len() == 0 || images.len() % IMAGE_SIZE != 0 {
            return Err(TeeError::BadParameters);
        }
        match &self.model {
            Some(m) => Ok(vstd::slice::slice_to_vec(m.as_slice())),
            None => {
                let b = match self.storage.load_model_bytes() {
                    Ok(b) => b,
                    Err(_) => {
                        return Err(TeeError::CorruptObject);
                    },
                };
                self.model = Some(vstd::slice::slice_to_vec(b.as_slice()));
                Ok(b)
            },
        }
    }

    /// The numbered-command switch: routes a wire identifier and its payload
    /// to the handler above; unknown identifiers fail with `BadParameters`
    /// and touch nothing.
    pub fn dispatch(&mut self, cmd_id: u32, payload: &[u8]) -> (r: Result<EnclaveReply, TeeError>)
        requires
            old(self).wf(),
            cmd_id == 1 ==> payload@.len() <= u32::MAX && payload@.len() + AES_BLOCK_SIZE + 4
                <= usize::MAX,
        ensures
            final(self).wf(),
            command_of_spec(cmd_id) is None ==> r == Err::<EnclaveReply, TeeError>(
                TeeError::BadParameters,
            ) && *final(self) == *old(self),
            cmd_id == 0 ==> (r is Ok ==> r->Ok_0 is RunForwardPass) && Self::infer_post(
                *old(self),
                *final(self),
                payload@,
                match r {
                    Ok(reply) => Ok(reply->RunForwardPass_0@),
                    Err(e) => Err(e),
                },
            ),
            cmd_id == 1 ==> (r is Ok ==> r->Ok_0 is Bytes) && Self::encrypt_model_post(
                *old(self),
                *final(self),
                payload@,
                match r {
                    Ok(reply) => Ok(reply->Bytes_0@),
                    Err(e) => Err(e),
                },
            ),
            cmd_id == 3 ==> (r is Ok ==> r->Ok_0 is Done) && Self::store_key_post(
                *old(self),
                *final(self),
                payload@,
                match r {
                    Ok(_) => Ok(()),
                    Err(e) => Err(e),
                },
            ),
            cmd_id == 4 ==> (r is Ok ==> r->Ok_0 is Done) && Self::begin_post(
                *old(self),
                *final(self),
                match r {
                    Ok(_) => Ok(()),
                    Err(e) => Err(e),
                },
            ),
            cmd_id == 5 ==> (r is Ok ==> r->Ok_0 is Done) && Self::push_post(
                *old(self),
                *final(self),
                payload@,
                match r {
                    Ok(_) => Ok(()),
                    Err(e) => Err(e),
                },
            ),
            cmd_id == 6 ==> (r is Ok ==> r->Ok_0 is Bytes) && Self::finalize_post(
                *old(self),
                *final(self),
                match r {
                    Ok(reply) => Ok(reply->Bytes_0@),
                    Err(e) => Err(e),
                },
            ),
            cmd_id == 7 ==> (r is Ok ==> r->Ok_0 is Bytes) && Self::export_key_post(
                *old(self),
                match r {
                    Ok(reply) => Ok(reply->Bytes_0@),
                    Err(e) => Err(e),
                },
            ) && *final(self) == *old(self),
    {
        let cmd = match TaCommand::from_u32(cmd_id) {
            Some(cmd) => cmd,
            None => {
                return Err(TeeError::BadParameters);
            },
        };
        match cmd {
            TaCommand::Infer => {
                let m = self.invoke_inference(payload)?;
                Ok(EnclaveReply::RunForwardPass(m))
            },
            TaCommand::EncryptModel => {
                let c = self.invoke_encrypt_model(payload)?;
                Ok(EnclaveReply::Bytes(c))
            },
            TaCommand::StoreKey => {
                self.invoke_store_key(payload)?;
                Ok(EnclaveReply::Done)
            },
            TaCommand::BeginModelLoad => {
                self.invoke_begin_model_load()?;
                Ok(EnclaveReply::Done)
            },
            TaCommand::PushEncryptedChunk => {
                self.invoke_push_encrypted_chunk(payload)?;
                Ok(EnclaveReply::Done)
            },
            TaCommand::FinalizeModelLoad => {
                let p = self.invoke_finalize_model_load()?;
                Ok(EnclaveReply::Bytes(p))
            },
            TaCommand::ExportAesKey => {
                let k = self.invoke_export_aes_key()?;
                Ok(EnclaveReply::Bytes(k))
            },
        }
    }
}

} // verus!
