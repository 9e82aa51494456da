//! The confidentiality layer: objects are stored as AES-256-GCM blobs whose
//! nonce is derived from the plaintext, so equal plaintexts give equal blobs.
use vstd::prelude::*;

use crate::crypto::{aes256gcm_decrypt, aes256gcm_encrypt, aes256gcm_open, aes256gcm_seal, aes_gcm_max_plaintext, sha256, sha256_digest};
use crate::error::SecError;
use crate::utils::{bytes_result_view, object_slice, read_slice};

verus! {

/// The name under which blobs record their algorithm: `aes-256-gcm`.
pub open spec fn aes_name() -> Seq<char> {
    seq!['a', 'e', 's', '-', '2', '5', '6', '-', 'g', 'c', 'm']
}

/// The nonce used for a plaintext: the first 12 bytes of its SHA-256 digest.
pub open spec fn nonce_of(plaintext: Seq<u8>) -> Seq<u8> {
    sha256_digest(plaintext).subrange(0, 12)
}

/// An encrypted object as it is stored: the algorithm, the nonce and the
/// ciphertext with its authentication tag.
pub struct EncryptedBlob {
    pub alg: String,
    pub nonce: Vec<u8>,
    pub data: Vec<u8>,
}

/// The view of a blob: algorithm, nonce, ciphertext.
pub open spec fn blob_view(b: EncryptedBlob) -> (Seq<char>, Seq<u8>, Seq<u8>) {
    (b.alg@, b.nonce@, b.data@)
}

/// The blob that encrypting `plaintext` under `key` stores.
pub open spec fn encrypted_blob(key: Seq<u8>, plaintext: Seq<u8>) -> (Seq<char>, Seq<u8>, Seq<u8>) {
    (aes_name(), nonce_of(plaintext), aes256gcm_seal(key, nonce_of(plaintext), plaintext))
}

/// What decrypting a stored blob under `key` gives: the plaintext, or why not.
pub open spec fn blob_decryption(key: Seq<u8>, blob: EncryptedBlob) -> Result<Seq<u8>, SecError> {
    if blob.alg@ != aes_name() {
        Err(SecError::UnsupportedAlgorithm(blob.alg))
    } else {
        match aes256gcm_open(key, blob.nonce@, blob.data@) {
            Some(p) => Ok(p),
            None => Err(SecError::DecryptionFailed),
        }
    }
}

/// Whether `s` names the supported algorithm.
fn is_aes_name(s: &String) -> (r: bool)
    ensures
        r == (s@ == aes_name()),
{
    let name = String::from_str("aes-256-gcm");
    proof {
        reveal_strlit("aes-256-gcm");
        assert(name@ =~= aes_name());
    }
    s.eq(&name)
}

/// The adapter that encrypts what it writes and decrypts what it reads.
pub struct EncryptionAdapter<A> {
    inner: A,
    key: [u8; 32],
}

impl<A> EncryptionAdapter<A> {
    /// The AES-256 key.
    pub closed spec fn key_of(&self) -> Seq<u8> {
        self.key@
    }

    /// The wrapped adapter.
    pub closed spec fn inner_of(&self) -> A {
        self.inner
    }

    /// An encryption layer with the 32-byte AES key `key`.
    pub fn new(inner: A, key: [u8; 32]) -> (r: Self)
        ensures
            r.key_of() == key@,
            r.inner_of() == inner,
    {
        EncryptionAdapter { inner, key }
    }

    /// The wrapped adapter.
    pub fn get_inner(&self) -> (r: &A)
        ensures
            *r == self.inner_of(),
    {
        &self.inner
    }

    /// The wrapped adapter, giving up the layer.
    pub fn into_inner(self) -> (r: A)
        ensures
            r == self.inner_of(),
    {
        self.inner
    }

    /// The nonce for a plaintext: the first 12 bytes of its SHA-256 digest.
    pub fn derive_nonce(plaintext: &[u8]) -> (r: Vec<u8>)
        ensures
            r@ == nonce_of(plaintext@),
            r@.len() == 12,
    {
        let hash = sha256(plaintext);
        let mut nonce: Vec<u8> = Vec::new();
        let mut i: usize = 0;
        while i < 12
            invariant
                hash@ == sha256_digest(plaintext@),
                hash@.len() == 32,
                i <= 12,
                nonce@ == hash@.subrange(0, i as int),
            decreases 12 - i,
        {
            nonce.push(hash[i]);
            i = i + 1;
            assert(nonce@ =~= hash@.subrange(0, i as int));
        }
        nonce
    }

    /// Encrypts `plaintext` into the blob to store. Fails only on plaintexts
    /// longer than AES-GCM accepts. The blob decrypts back to the plaintext.
    pub fn encrypt(&self, plaintext: &[u8]) -> (r: Result<EncryptedBlob, SecError>)
        ensures
            r is Ok <==> plaintext@.len() <= aes_gcm_max_plaintext(),
            r matches Err(e) ==> e == SecError::EncryptionFailed,
            r matches Ok(b) ==> blob_view(b) == encrypted_blob(self.key_of(), plaintext@),
            r matches Ok(b) ==> b.nonce@.len() == 12,
            r matches Ok(b) ==> blob_decryption(self.key_of(), b) == Ok::<Seq<u8>, SecError>(plaintext@),
    {
        let nonce = Self::derive_nonce(plaintext);
        let data = match aes256gcm_encrypt(self.key.as_slice(), nonce.as_slice(), plaintext) {
            Some(c) => c,
            None => return Err(SecError::EncryptionFailed),
        };
        let alg = String::from_str("aes-256-gcm");
        proof {
            reveal_strlit("aes-256-gcm");
            assert(alg@ =~= aes_name());
        }
        Ok(EncryptedBlob { alg, nonce, data })
    }

    /// Decrypts a stored blob: fails when it names another algorithm, or when
    /// authentication fails (a wrong key, or altered data).
    pub fn decrypt(&self, blob: &EncryptedBlob) -> (r: Result<Vec<u8>, SecError>)
        requires
            blob.alg@ == aes_name() ==> blob.nonce@.len() == 12,
        ensures
            bytes_result_view(r) == blob_decryption(self.key_of(), *blob),
    {
        if !is_aes_name(&blob.alg) {
            return Err(SecError::UnsupportedAlgorithm(blob.alg.clone()));
        }
        match aes256gcm_decrypt(self.key.as_slice(), blob.nonce.as_slice(), blob.data.as_slice()) {
            Some(p) => Ok(p),
            None => Err(SecError::DecryptionFailed),
        }
    }

    /// Reads `length` bytes at `offset` of the object stored as `blob`; the
    /// whole object when both are 0.
    pub fn open_object(&self, blob: &EncryptedBlob, offset: usize, length: usize) -> (r: Result<Vec<u8>, SecError>)
        requires
            blob.alg@ == aes_name() ==> blob.nonce@.len() == 12,
            offset + length <= usize::MAX,
        ensures
            bytes_result_view(r) == (match blob_decryption(self.key_of(), *blob) {
                Ok(p) => object_slice(p, offset as nat, length as nat),
                Err(e) => Err(e),
            }),
    {
        let plain = self.decrypt(blob)?;
        read_slice(plain, offset, length)
    }
}

/// Reading back what was written: a blob that `encrypt` stored for
/// `plaintext` under the adapter's key names the supported algorithm, and
/// reading `length` bytes at `offset` of it gives exactly that slice of the
/// plaintext (or the slice error), whatever the offset and length.
pub proof fn lemma_encrypted_object_reads_back<A>(
    enc: EncryptionAdapter<A>,
    blob: EncryptedBlob,
    plaintext: Seq<u8>,
    offset: nat,
    length: nat,
)
    requires
        blob_view(blob) == encrypted_blob(enc.key_of(), plaintext),
        blob_decryption(enc.key_of(), blob) == Ok::<Seq<u8>, SecError>(plaintext),
    ensures
        blob.alg@ == aes_name(),
        (match blob_decryption(enc.key_of(), blob) {
            Ok(p) => object_slice(p, offset, length),
            Err(e) => Err(e),
        }) == object_slice(plaintext, offset, length),
{
}

/// Encryption is deterministic: two blobs that `encrypt` stored for the same
/// plaintext under the same adapter's key are the same blob.
pub proof fn lemma_encryption_deterministic<A>(
    enc: EncryptionAdapter<A>,
    first: EncryptedBlob,
    second: EncryptedBlob,
    plaintext: Seq<u8>,
)
    requires
        blob_view(first) == encrypted_blob(enc.key_of(), plaintext),
        blob_view(second) == encrypted_blob(enc.key_of(), plaintext),
    ensures
        first.alg@ == second.alg@,
        first.nonce@ == second.nonce@,
        first.data@ == second.data@,
{
}

} // verus!
