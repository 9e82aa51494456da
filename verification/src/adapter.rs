//! The signing layer: deltas are signed when written, and on reading a delta
//! its signature must verify under a trusted key that the policy allows to
//! change every object the delta creates or modifies.
use vstd::prelude::*;

use crate::crypto::{base64_decode, base64_decoding, base64_encode, base64_encoding, ed25519_public_key, ed25519_signature, ed25519_verifies};
use crate::error::SecError;
use crate::keystore::{first_verifier, KeyStore};
use crate::policy::engine::{policy_allows, PolicyEngine};
use crate::policy::rule::RuleView;
use crate::utils::{created_and_modified_ids, ends_with_delta, extract_created_and_modified_object_ids, is_delta_key_name, sig_key};

verus! {

/// The signature of a delta as it is stored next to it: the algorithm, and the
/// standard base64 of the public key and of the signature.
pub struct SignatureFile {
    pub alg: String,
    pub pubkey: String,
    pub sig: String,
}

/// The name under which signature files record their algorithm: `ed25519`.
pub open spec fn ed25519_alg() -> Seq<char> {
    seq!['e', 'd', '2', '5', '5', '1', '9']
}

/// The view of a signature file: algorithm, public key text, signature text.
pub open spec fn signature_file_view(f: SignatureFile) -> (Seq<char>, Seq<char>, Seq<char>) {
    (f.alg@, f.pubkey@, f.sig@)
}

/// The outcome of a check of the signing layer: accepted with some data, refused
/// with an error, or refused because of an object identifier.
pub enum Outcome {
    Accept(Seq<u8>),
    Reject(SecError),
    WriteDenied(Seq<char>),
    PolicyViolation(Seq<char>),
}

/// The outcome that a byte result stands for.
pub open spec fn bytes_outcome(r: Result<Vec<u8>, SecError>) -> Outcome {
    match r {
        Ok(d) => Outcome::Accept(d@),
        Err(SecError::WriteDenied(s)) => Outcome::WriteDenied(s@),
        Err(SecError::PolicyViolation(s)) => Outcome::PolicyViolation(s@),
        Err(e) => Outcome::Reject(e),
    }
}

/// The outcome that a unit result stands for.
pub open spec fn unit_outcome(r: Result<(), SecError>) -> Outcome {
    match r {
        Ok(()) => Outcome::Accept(seq![]),
        Err(SecError::WriteDenied(s)) => Outcome::WriteDenied(s@),
        Err(SecError::PolicyViolation(s)) => Outcome::PolicyViolation(s@),
        Err(e) => Outcome::Reject(e),
    }
}

/// The first of `ids` that the policy does not allow `pubkey` to change.
pub open spec fn first_denied(
    rules: Seq<RuleView>,
    roles: Map<Seq<u8>, Seq<char>>,
    pubkey: Seq<u8>,
    ids: Seq<Seq<char>>,
) -> Option<Seq<char>>
    decreases ids.len(),
{
    if ids.len() == 0 {
        None
    } else if !policy_allows(rules, roles, pubkey, ids[0]) {
        Some(ids[0])
    } else {
        first_denied(rules, roles, pubkey, ids.drop_first())
    }
}

/// The check made before writing `data` under `key`: when writes are strict, a
/// delta may only be written by a signer that the policy allows to change every
/// object the delta creates or modifies.
pub open spec fn write_check(
    strict_write: bool,
    secret: Option<Seq<u8>>,
    rules: Seq<RuleView>,
    roles: Map<Seq<u8>, Seq<char>>,
    key: Seq<char>,
    data: Seq<u8>,
) -> Outcome {
    if is_delta_key_name(key) && strict_write {
        match secret {
            None => Outcome::Reject(SecError::MissingSigningKey),
            Some(sk) => match first_denied(rules, roles, ed25519_public_key(sk), created_and_modified_ids(data)) {
                Some(id) => Outcome::WriteDenied(id),
                None => Outcome::Accept(seq![]),
            },
        }
    } else {
        Outcome::Accept(seq![])
    }
}

/// What a read of `length` bytes at `offset` of `key` gives, with `data` the
/// bytes read and `sig` the signature bytes of its signature file (`None` when
/// there is none): objects that are not deltas, and partial reads, pass; a delta
/// needs a signature that verifies under a trusted key that the policy allows
/// to change every object the delta creates or modifies. When reads are not
/// strict, a delta without signature passes and a refused delta reads empty.
pub open spec fn signed_read(
    strict_read: bool,
    trusted: Seq<Seq<u8>>,
    rules: Seq<RuleView>,
    roles: Map<Seq<u8>, Seq<char>>,
    key: Seq<char>,
    offset: nat,
    length: nat,
    data: Seq<u8>,
    sig: Option<Seq<u8>>,
) -> Outcome {
    if !is_delta_key_name(key) || offset != 0 || length != 0 {
        Outcome::Accept(data)
    } else {
        match sig {
            None => if strict_read {
                Outcome::Reject(SecError::MissingSignature)
            } else {
                Outcome::Accept(data)
            },
            Some(s) => match first_verifier(trusted, data, s.subrange(0, 64)) {
                None => if strict_read {
                    Outcome::Reject(SecError::InvalidSignature)
                } else {
                    Outcome::Accept(seq![])
                },
                Some(pk) => match first_denied(rules, roles, pk, created_and_modified_ids(data)) {
                    Some(id) => if strict_read {
                        Outcome::PolicyViolation(id)
                    } else {
                        Outcome::Accept(seq![])
                    },
                    None => Outcome::Accept(data),
                },
            },
        }
    }
}

/// The bytes of the signature in a signature file: both the public key and the
/// signature must be standard base64.
pub open spec fn signature_file_bytes(f: (Seq<char>, Seq<char>, Seq<char>)) -> Result<Seq<u8>, SecError> {
    match base64_decoding(f.1) {
        None => Err(SecError::InvalidBase64),
        Some(_) => match base64_decoding(f.2) {
            None => Err(SecError::InvalidBase64),
            Some(s) => Ok(s),
        },
    }
}

/// Decodes a signature file read from storage: the bytes of its signature.
pub fn decode_signature_file(f: &SignatureFile) -> (r: Result<Vec<u8>, SecError>)
    ensures
        (match r {
            Ok(s) => Ok(s@),
            Err(e) => Err(e),
        }) == signature_file_bytes(signature_file_view(*f)),
{
    match base64_decode(f.pubkey.as_str()) {
        None => return Err(SecError::InvalidBase64),
        Some(_) => {},
    }
    match base64_decode(f.sig.as_str()) {
        None => Err(SecError::InvalidBase64),
        Some(s) => Ok(s),
    }
}

/// The first 64 bytes of `s`.
fn first_64(s: &Vec<u8>) -> (r: Vec<u8>)
    requires
        s@.len() >= 64,
    ensures
        r@ == s@.subrange(0, 64),
{
    let mut out: Vec<u8> = Vec::new();
    let mut i: usize = 0;
    while i < 64
        invariant
            s@.len() >= 64,
            i <= 64,
            out@ == s@.subrange(0, i as int),
        decreases 64 - i,
    {
        out.push(s[i]);
        i = i + 1;
        assert(out@ =~= s@.subrange(0, i as int));
    }
    out
}

/// The adapter that signs the deltas it writes and checks the signatures of
/// the deltas it reads.
pub struct SecureAdapter<A> {
    inner: A,
    keystore: KeyStore,
    policy: PolicyEngine,
    strict_read: bool,
    strict_write: bool,
}

impl<A> SecureAdapter<A> {
    /// The key store.
    pub closed spec fn keystore_of(&self) -> KeyStore {
        self.keystore
    }

    /// The policy.
    pub closed spec fn policy_of(&self) -> PolicyEngine {
        self.policy
    }

    /// Whether reads of deltas without valid, authorized signatures fail.
    pub closed spec fn strict_read_of(&self) -> bool {
        self.strict_read
    }

    /// Whether writes of deltas by unauthorized signers fail.
    pub closed spec fn strict_write_of(&self) -> bool {
        self.strict_write
    }

    /// The wrapped adapter.
    pub closed spec fn inner_of(&self) -> A {
        self.inner
    }

    /// The key store and the policy are well formed.
    pub open spec fn wf(&self) -> bool {
        self.keystore_of().wf() && self.policy_of().wf()
    }

    /// A signing layer with strict reads and lenient writes.
    pub fn new(inner: A, keystore: KeyStore, policy: PolicyEngine) -> (r: Self)
        ensures
            r.keystore_of() == keystore,
            r.policy_of() == policy,
            r.strict_read_of(),
            !r.strict_write_of(),
            r.inner_of() == inner,
    {
        SecureAdapter { inner, keystore, policy, strict_read: true, strict_write: false }
    }

    /// The same layer with strict reads set to `value`.
    pub fn strict_read(self, value: bool) -> (r: Self)
        ensures
            r.strict_read_of() == value,
            r.strict_write_of() == self.strict_write_of(),
            r.keystore_of() == self.keystore_of(),
            r.policy_of() == self.policy_of(),
            r.inner_of() == self.inner_of(),
    {
        let mut s = self;
        s.strict_read = value;
        s
    }

    /// The same layer with strict writes set to `value`.
    pub fn strict_write(self, value: bool) -> (r: Self)
        ensures
            r.strict_write_of() == value,
            r.strict_read_of() == self.strict_read_of(),
            r.keystore_of() == self.keystore_of(),
            r.policy_of() == self.policy_of(),
            r.inner_of() == self.inner_of(),
    {
        let mut s = self;
        s.strict_write = value;
        s
    }

    /// The wrapped adapter.
    pub fn get_inner(&self) -> (r: &A)
        ensures
            *r == self.inner_of(),
    {
        &self.inner
    }

    /// The first of `ids` that the policy does not allow `pubkey` to change.
    fn find_denied(&self, pubkey: &[u8], ids: &Vec<String>) -> (r: Option<usize>)
        requires
            self.wf(),
        ensures
            match first_denied(
                self.policy_of().rule_views(),
                self.keystore_of().roles(),
                pubkey@,
                ids@.map_values(|s: String| s@),
            ) {
                Some(id) => r matches Some(i) && i < ids@.len() && ids@[i as int]@ == id,
                None => r is None,
            },
    {
        let ghost idv = ids@.map_values(|s: String| s@);
        let ghost rules = self.policy_of().rule_views();
        let ghost roles = self.keystore_of().roles();
        let mut i: usize = 0;
        assert(idv.skip(0) =~= idv);
        while i < ids.len()
            invariant
                self.wf(),
                idv == ids@.map_values(|s: String| s@),
                rules == self.policy_of().rule_views(),
                roles == self.keystore_of().roles(),
                i <= ids@.len(),
                first_denied(rules, roles, pubkey@, idv) == first_denied(rules, roles, pubkey@, idv.skip(i as int)),
            decreases ids@.len() - i,
        {
            assert(idv.skip(i as int)[0] == ids@[i as int]@);
            assert(idv.skip(i as int).drop_first() =~= idv.skip(i + 1));
            if !self.policy.allows(&self.keystore, pubkey, ids[i].as_str()) {
                return Some(i);
            }
            i = i + 1;
        }
        assert(idv.skip(i as int).len() == 0);
        None
    }

    /// The check made before writing `data` under `key`.
    pub fn check_write(&self, key: &str, data: &[u8]) -> (r: Result<(), SecError>)
        requires
            self.wf(),
        ensures
            unit_outcome(r) == write_check(
                self.strict_write_of(),
                self.keystore_of().secret(),
                self.policy_of().rule_views(),
                self.keystore_of().roles(),
                key@,
                data@,
            ),
    {
        if ends_with_delta(key) && self.strict_write {
            let ids = extract_created_and_modified_object_ids(data);
            let pubkey = match self.keystore.endorsement_public_key() {
                Some(p) => p,
                None => return Err(SecError::MissingSigningKey),
            };
            match self.find_denied(pubkey.as_slice(), &ids) {
                Some(i) => return Err(SecError::WriteDenied(ids[i].clone())),
                None => {},
            }
        }
        Ok(())
    }

    /// The signature file to write, and its name, after `data` was written under
    /// `key`: deltas are signed with the endorsement key, when there is one.
    /// The signature in the file verifies the data under the signer's key.
    pub fn signature_for(&self, key: &str, data: &[u8]) -> (r: Option<(String, SignatureFile)>)
        requires
            self.wf(),
        ensures
            r is Some <==> (is_delta_key_name(key@) && self.keystore_of().secret() is Some),
            r matches Some((name, f)) ==> name@ == key@ + ".sig"@,
            r matches Some((name, f)) ==> signature_file_view(f) == (
                ed25519_alg(),
                base64_encoding(ed25519_public_key(self.keystore_of().secret()->0)),
                base64_encoding(ed25519_signature(self.keystore_of().secret()->0, data@)),
            ),
            r matches Some((name, f)) ==> (signature_file_bytes(signature_file_view(f)) matches Ok(s) && s.len()
                == 64 && ed25519_verifies(ed25519_public_key(self.keystore_of().secret()->0), data@, s)),
    {
        if !ends_with_delta(key) {
            return None;
        }
        let sig = match self.keystore.endorse(data) {
            Some(s) => s,
            None => return None,
        };
        let pubkey = match self.keystore.endorsement_public_key() {
            Some(p) => p,
            None => return None,
        };
        let alg = String::from_str("ed25519");
        proof {
            reveal_strlit("ed25519");
            assert(alg@ =~= ed25519_alg());
        }
        let f = SignatureFile { alg, pubkey: base64_encode(pubkey.as_slice()), sig: base64_encode(sig.as_slice()) };
        Some((sig_key(key), f))
    }

    /// Decides a read of `length` bytes at `offset` of `key`, given the bytes
    /// read and the signature bytes of its signature file (`None` when there is
    /// none).
    pub fn signed_read(
        &self,
        key: &str,
        offset: usize,
        length: usize,
        data: Vec<u8>,
        sig: Option<Vec<u8>>,
    ) -> (r: Result<Vec<u8>, SecError>)
        requires
            self.wf(),
            sig matches Some(s) ==> s@.len() >= 64,
        ensures
            bytes_outcome(r) == signed_read(
                self.strict_read_of(),
                self.keystore_of().trusted_list(),
                self.policy_of().rule_views(),
                self.keystore_of().roles(),
                key@,
                offset as nat,
                length as nat,
                data@,
                match sig {
                    Some(s) => Some(s@),
                    None => None,
                },
            ),
    {
        if !ends_with_delta(key) || offset != 0 || length != 0 {
            return Ok(data);
        }
        let s = match &sig {
            None => {
                return if self.strict_read {
                    Err(SecError::MissingSignature)
                } else {
                    Ok(data)
                };
            },
            Some(s) => first_64(s),
        };
        let pubkey = match self.keystore.verify(data.as_slice(), s.as_slice()) {
            Some(pk) => pk,
            None => {
                return if self.strict_read {
                    Err(SecError::InvalidSignature)
                } else {
                    Ok(Vec::new())
                };
            },
        };
        let ids = extract_created_and_modified_object_ids(data.as_slice());
        match self.find_denied(pubkey.as_slice(), &ids) {
            Some(i) => if self.strict_read {
                Err(SecError::PolicyViolation(ids[i].clone()))
            } else {
                Ok(Vec::new())
            },
            None => Ok(data),
        }
    }
}

/// A delta signed by a trusted key is read back as written when every trusted
/// key under which its signature verifies is allowed to change every object
/// the delta creates or modifies.
pub proof fn lemma_signed_delta_reads_back(
    strict_read: bool,
    trusted: Seq<Seq<u8>>,
    rules: Seq<RuleView>,
    roles: Map<Seq<u8>, Seq<char>>,
    key: Seq<char>,
    data: Seq<u8>,
    sig: Seq<u8>,
    signer: Seq<u8>,
)
    requires
        is_delta_key_name(key),
        sig.len() == 64,
        trusted.contains(signer),
        ed25519_verifies(signer, data, sig),
        forall|k: Seq<u8>|
            trusted.contains(k) && ed25519_verifies(k, data, sig) ==> first_denied(
                rules,
                roles,
                k,
                created_and_modified_ids(data),
            ) is None,
    ensures
        signed_read(strict_read, trusted, rules, roles, key, 0, 0, data, Some(sig)) == Outcome::Accept(data),
{
    assert(sig.subrange(0, 64) =~= sig);
    lemma_first_verifier_found(trusted, data, sig, signer);
}

/// When some key of `keys` verifies the signature, the first such key is one
/// of `keys` and verifies it.
pub proof fn lemma_first_verifier_found(keys: Seq<Seq<u8>>, msg: Seq<u8>, sig: Seq<u8>, k: Seq<u8>)
    requires
        keys.contains(k),
        ed25519_verifies(k, msg, sig),
    ensures
        first_verifier(keys, msg, sig) matches Some(f) && keys.contains(f) && ed25519_verifies(f, msg, sig),
    decreases keys.len(),
{
    if !ed25519_verifies(keys[0], msg, sig) {
        let i = choose|i: int| 0 <= i < keys.len() && keys[i] == k;
        assert(keys.drop_first()[i - 1] == k);
        lemma_first_verifier_found(keys.drop_first(), msg, sig, k);
        let f = first_verifier(keys.drop_first(), msg, sig)->0;
        let j = choose|j: int| 0 <= j < keys.drop_first().len() && keys.drop_first()[j] == f;
        assert(keys[j + 1] == f);
    }
}

} // verus!
