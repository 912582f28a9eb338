//! Enclave-private durable key/blob storage.
//!
//! Objects live under fixed, compile-time-known identifiers: one for the
//! symmetric key, one for the plaintext model bytes. `store` has
//! create-or-overwrite semantics; `load` returns exactly what was stored;
//! `exists` never fails. Durability across process restarts is the hosting
//! layer's concern: it snapshots and restores the whole store.

use vstd::prelude::*;

use crate::errors::TeeError;
use crate::AES_KEY_SIZE;

verus! {

/// The fixed identifiers of the two persisted objects.
#[derive(Clone, Copy, Debug, PartialEq, Eq, Structural)]
pub enum ObjectId {
    /// The 32-byte symmetric key.
    AesKey,
    /// The plaintext model bytes.
    ModelBytes,
}

/// The enclave-private store, one slot per fixed identifier.
pub struct SecureStorage {
    aes_key: Option<Vec<u8>>,
    model: Option<Vec<u8>>,
}

impl View for SecureStorage {
    type V = Map<ObjectId, Seq<u8>>;

    closed spec fn view(&self) -> Map<ObjectId, Seq<u8>> {
        let m = Map::<ObjectId, Seq<u8>>::empty();
        let m = if self.aes_key is Some {
            m.insert(ObjectId::AesKey, self.aes_key->0@)
        } else {
            m
        };
        if self.model is Some {
            m.insert(ObjectId::ModelBytes, self.model->0@)
        } else {
            m
        }
    }
}

/// What storing a blob does to the store: the object is created or replaced
/// whole, never merged.
pub open spec fn store_spec(
    m: Map<ObjectId, Seq<u8>>,
    id: ObjectId,
    bytes: Seq<u8>,
) -> Map<ObjectId, Seq<u8>> {
    m.insert(id, bytes)
}

/// What loading an object returns: exactly the stored bytes, or nothing.
pub open spec fn load_spec(m: Map<ObjectId, Seq<u8>>, id: ObjectId) -> Option<Seq<u8>> {
    if m.contains_key(id) {
        Some(m[id])
    } else {
        None
    }
}

/// Persistence idempotence: a `store` followed by a `load` of the same
/// identifier yields exactly the stored bytes, and a second `store` under the
/// same identifier leaves only the second value readable. Other objects are
/// untouched.
pub proof fn lemma_persistence_idempotence(
    m: Map<ObjectId, Seq<u8>>,
    id: ObjectId,
    b1: Seq<u8>,
    b2: Seq<u8>,
)
    ensures
        load_spec(store_spec(m, id, b1), id) == Some(b1),
        load_spec(store_spec(store_spec(m, id, b1), id, b2), id) == Some(b2),
        forall|other: ObjectId|
            other != id ==> load_spec(#[trigger] store_spec(m, id, b1), other) == load_spec(
                m,
                other,
            ),
{
}

impl SecureStorage {
    /// An empty store: nothing was ever persisted.
    pub fn new() -> (r: Self)
        ensures
            r@ == Map::<ObjectId, Seq<u8>>::empty(),
    {
        let r = SecureStorage { aes_key: None, model: None };
        proof {
            assert(r@ =~= Map::<ObjectId, Seq<u8>>::empty());
        }
        r
    }

    /// Creates or overwrites the object under `id` with `bytes`.
    pub fn store(&mut self, id: ObjectId, bytes: &[u8]) -> (r: Result<(), TeeError>)
        ensures
            r is Ok,
            final(self)@ == store_spec(old(self)@, id, bytes@),
    {
        let v = vstd::slice::slice_to_vec(bytes);
        match id {
            ObjectId::AesKey => {
                self.aes_key = Some(v);
            },
            ObjectId::ModelBytes => {
                self.model = Some(v);
            },
        }
        proof {
            assert(self@ =~= store_spec(old(self)@, id, bytes@));
        }
        Ok(())
    }

    /// Reads the object under `id` whole; fails with `ItemNotFound` when it
    /// was never stored.
    pub fn load(&self, id: ObjectId) -> (r: Result<Vec<u8>, TeeError>)
        ensures
            match load_spec(self@, id) {
                Some(b) => r is Ok && r->Ok_0@ == b,
                None => r == Err::<Vec<u8>, TeeError>(TeeError::ItemNotFound),
            },
    {
        let slot = match id {
            ObjectId::AesKey => &self.aes_key,
            ObjectId::ModelBytes => &self.model,
        };
        match slot {
            Some(v) => Ok(vstd::slice::slice_to_vec(v.as_slice())),
            None => Err(TeeError::ItemNotFound),
        }
    }

    /// Whether the object under `id` is present; never fails.
    pub fn has_object(&self, id: ObjectId) -> (r: bool)
        ensures
            r == self@.contains_key(id),
    {
        let slot = match id {
            ObjectId::AesKey => &self.aes_key,
            ObjectId::ModelBytes => &self.model,
        };
        slot.is_some()
    }

    /// Persists a 32-byte symmetric key under its fixed identifier.
    pub fn store_ta_aes_key(&mut self, aes_key: &[u8]) -> (r: Result<(), TeeError>)
        requires
            aes_key@.len() == AES_KEY_SIZE,
        ensures
            r is Ok,
            final(self)@ == store_spec(old(self)@, ObjectId::AesKey, aes_key@),
    {
        self.store(ObjectId::AesKey, aes_key)
    }

    /// Loads the persisted symmetric key. Fails with `ItemNotFound` when none
    /// was stored and with `BadParameters` when the stored object is not
    /// exactly 32 bytes.
    pub fn load_ta_aes_key(&self) -> (r: Result<Vec<u8>, TeeError>)
        ensures
            match load_spec(self@, ObjectId::AesKey) {
                Some(b) => if b.len() == AES_KEY_SIZE {
                    r is Ok && r->Ok_0@ == b
                } else {
                    r == Err::<Vec<u8>, TeeError>(TeeError::BadParameters)
                },
                None => r == Err::<Vec<u8>, TeeError>(TeeError::ItemNotFound),
            },
    {
        let v = self.load(ObjectId::AesKey)?;
        if v.len() != AES_KEY_SIZE {
            return Err(TeeError::BadParameters);
        }
        Ok(v)
    }

    /// Whether a symmetric key was ever persisted; never fails.
    pub fn ta_aes_key_exists(&self) -> (r: bool)
        ensures
            r == self@.contains_key(ObjectId::AesKey),
    {
        self.has_object(ObjectId::AesKey)
    }

    /// Persists the plaintext model bytes under their fixed identifier.
    pub fn store_model_bytes(&mut self, model: &[u8]) -> (r: Result<(), TeeError>)
        ensures
            r is Ok,
            final(self)@ == store_spec(old(self)@, ObjectId::ModelBytes, model@),
    {
        self.store(ObjectId::ModelBytes, model)
    }

    /// Loads the persisted plaintext model bytes whole. Fails with
    /// `ItemNotFound` when none were stored.
    pub fn load_model_bytes(&self) -> (r: Result<Vec<u8>, TeeError>)
        ensures
            match load_spec(self@, ObjectId::ModelBytes) {
                Some(b) => r is Ok && r->Ok_0@ == b,
                None => r == Err::<Vec<u8>, TeeError>(TeeError::ItemNotFound),
            },
    {
        self.load(ObjectId::ModelBytes)
    }

    /// Whether model bytes were ever persisted; never fails.
    pub fn model_bytes_exists(&self) -> (r: bool)
        ensures
            r == self@.contains_key(ObjectId::ModelBytes),
    {
        self.has_object(ObjectId::ModelBytes)
    }
}

} // verus!
