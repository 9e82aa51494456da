//! The key store: the endorsement key, the trusted public keys and their roles.
use vstd::prelude::*;

use crate::bytes::{bytes_eq, bytes_to_vec};
use crate::crypto::{
    base64_decode, base64_decoding, base64_encode, base64_encoding, ed25519_check_public, ed25519_derive_public, ed25519_key_valid, ed25519_public_key,
    ed25519_sign, ed25519_signature, ed25519_verifies, ed25519_verify,
};
use crate::error::SecError;

verus! {

broadcast use vstd::seq_lib::group_seq_properties;

/// A role given to a trusted public key.
struct RoleEntry {
    key: Vec<u8>,
    role: String,
}

/// A trusted public key and its optional role, as they are exported.
pub struct KeyEntry {
    /// Standard base64 of the 32-byte public key.
    pub pubkey: String,
    /// The role of the key, if any.
    pub role: Option<String>,
}

/// The key material of a participant: an optional Ed25519 endorsement
/// (signing) key, the set of trusted Ed25519 public keys, and a role for some
/// of the trusted keys.
pub struct KeyStore {
    endorsement_key: Option<Vec<u8>>,
    trusted_keys: Vec<Vec<u8>>,
    roles: Vec<RoleEntry>,
}

/// The first of `keys` under which `sig` is a valid signature of `msg`.
pub open spec fn first_verifier(keys: Seq<Seq<u8>>, msg: Seq<u8>, sig: Seq<u8>) -> Option<Seq<u8>>
    decreases keys.len(),
{
    if keys.len() == 0 {
        None
    } else if ed25519_verifies(keys[0], msg, sig) {
        Some(keys[0])
    } else {
        first_verifier(keys.drop_first(), msg, sig)
    }
}

/// The view of a key entry: the base64 text and the role.
pub open spec fn key_entry_view(e: KeyEntry) -> (Seq<char>, Option<Seq<char>>) {
    (e.pubkey@, match e.role {
        Some(r) => Some(r@),
        None => None,
    })
}

/// What loading a list of key entries yields, in order: the trusted keys and
/// their roles, or the error of the first entry that is not the base64 of a
/// valid public key.
pub open spec fn load_key_entries(es: Seq<(Seq<char>, Option<Seq<char>>)>) -> Result<
    (Set<Seq<u8>>, Map<Seq<u8>, Seq<char>>),
    SecError,
>
    decreases es.len(),
{
    if es.len() == 0 {
        Ok((Set::empty(), Map::empty()))
    } else {
        match load_key_entries(es.drop_last()) {
            Err(e) => Err(e),
            Ok((t, r)) => match base64_decoding(es.last().0) {
                None => Err(SecError::InvalidBase64),
                Some(k) => if k.len() != 32 {
                    Err(SecError::InvalidKeyLength)
                } else if !ed25519_key_valid(k) {
                    Err(SecError::InvalidKey)
                } else {
                    Ok(
                        (t.insert(k), match es.last().1 {
                            Some(role) => r.insert(k, role),
                            None => r,
                        }),
                    )
                },
            },
        }
    }
}

/// The entries a key store exports: each trusted key in base64, with its role.
pub open spec fn key_entries_of(keys: Seq<Seq<u8>>, roles: Map<Seq<u8>, Seq<char>>) -> Seq<
    (Seq<char>, Option<Seq<char>>),
> {
    Seq::new(
        keys.len(),
        |i: int|
            (base64_encoding(keys[i]), if roles.contains_key(keys[i]) {
                Some(roles[keys[i]])
            } else {
                None
            }),
    )
}

/// The bytes of an optional slice.
pub open spec fn opt_bytes_view(o: Option<&[u8]>) -> Option<Seq<u8>> {
    match o {
        Some(p) => Some(p@),
        None => None,
    }
}

/// The error that the endorsement credentials `private`/`public` are refused with, if any.
pub open spec fn credentials_error(private: Seq<u8>, public: Option<Seq<u8>>) -> Option<SecError> {
    if private.len() != 32 {
        Some(SecError::InvalidPrivateKey)
    } else {
        match public {
            None => None,
            Some(p) => if p.len() != 32 {
                Some(SecError::InvalidPublicKey)
            } else if p != ed25519_public_key(private) {
                Some(SecError::KeyMismatch)
            } else {
                None
            },
        }
    }
}

/// Once loading a prefix of the entries fails, loading the whole list fails the same way.
proof fn lemma_load_prefix_error(es: Seq<(Seq<char>, Option<Seq<char>>)>, n: int)
    requires
        0 <= n <= es.len(),
        load_key_entries(es.subrange(0, n)) is Err,
    ensures
        load_key_entries(es) == load_key_entries(es.subrange(0, n)),
    decreases es.len() - n,
{
    if n < es.len() {
        assert(es.subrange(0, n + 1).drop_last() =~= es.subrange(0, n));
        lemma_load_prefix_error(es, n + 1);
    } else {
        assert(es.subrange(0, n) =~= es);
    }
}

impl KeyStore {
    spec fn trusted_list_of(self) -> Seq<Seq<u8>> {
        self.trusted_keys@.map_values(|k: Vec<u8>| k@)
    }

    spec fn role_keys(self) -> Seq<Seq<u8>> {
        self.roles@.map_values(|e: RoleEntry| e.key@)
    }

    /// Well-formedness: the trusted keys are distinct valid 32-byte keys, the
    /// keys with a role are distinct and trusted, and the secret key has 32 bytes.
    pub closed spec fn wf(self) -> bool {
        &&& (self.endorsement_key matches Some(k) ==> k@.len() == 32)
        &&& self.trusted_list_of().no_duplicates()
        &&& forall|i: int|
            0 <= i < self.trusted_list_of().len() ==> (#[trigger] self.trusted_list_of()[i]).len()
                == 32 && ed25519_key_valid(self.trusted_list_of()[i])
        &&& self.role_keys().no_duplicates()
        &&& forall|i: int|
            0 <= i < self.role_keys().len() ==> self.trusted_list_of().contains(
                #[trigger] self.role_keys()[i],
            )
    }

    /// The trusted public keys, in the order in which they are exported.
    pub closed spec fn trusted_list(self) -> Seq<Seq<u8>> {
        self.trusted_list_of()
    }

    /// The set of trusted public keys.
    pub closed spec fn trusted(self) -> Set<Seq<u8>> {
        self.trusted_list_of().to_set()
    }

    /// The role of each public key that has one.
    pub closed spec fn roles(self) -> Map<Seq<u8>, Seq<char>> {
        Map::new(
            |k: Seq<u8>| self.role_keys().contains(k),
            |k: Seq<u8>| self.roles@[self.role_keys().index_of(k)].role@,
        )
    }

    /// The secret endorsement key, if one is set.
    pub closed spec fn secret(self) -> Option<Seq<u8>> {
        match self.endorsement_key {
            Some(k) => Some(k@),
            None => None,
        }
    }

    /// What every key store satisfies: the trusted keys are distinct valid 32-byte
    /// keys, only trusted keys have roles, and the secret key has 32 bytes.
    pub proof fn lemma_well_formed(&self)
        requires
            self.wf(),
        ensures
            self.trusted_list().no_duplicates(),
            self.trusted_list().to_set() == self.trusted(),
            self.trusted().finite(),
            self.trusted().len() == self.trusted_list().len(),
            forall|k: Seq<u8>| #[trigger] self.trusted().contains(k) ==> k.len() == 32 && ed25519_key_valid(k),
            forall|k: Seq<u8>| #[trigger] self.roles().contains_key(k) ==> self.trusted().contains(k),
            self.roles().dom().finite(),
            self.secret() matches Some(s) ==> s.len() == 32,
    {
        self.trusted_list_of().unique_seq_to_set();
        assert forall|k: Seq<u8>| #[trigger] self.trusted().contains(k) implies k.len() == 32
            && ed25519_key_valid(k) by {
            let i = choose|i: int| 0 <= i < self.trusted_list_of().len() && self.trusted_list_of()[i] == k;
        }
        assert forall|k: Seq<u8>| #[trigger] self.roles().contains_key(k) implies self.trusted().contains(k) by {
            let i = choose|i: int| 0 <= i < self.role_keys().len() && self.role_keys()[i] == k;
        }
        assert(self.roles().dom() =~= self.role_keys().to_set());
    }

    /// An empty key store: no endorsement key, no trusted key, no role.
    pub fn new() -> (r: KeyStore)
        ensures
            r.wf(),
            r.trusted() == Set::<Seq<u8>>::empty(),
            r.roles() == Map::<Seq<u8>, Seq<char>>::empty(),
            r.secret() is None,
    {
        let r = KeyStore { endorsement_key: None, trusted_keys: Vec::new(), roles: Vec::new() };
        assert(r.trusted() =~= Set::<Seq<u8>>::empty());
        assert(r.roles() =~= Map::<Seq<u8>, Seq<char>>::empty());
        r
    }

    fn find_trusted(&self, key: &[u8]) -> (r: Option<usize>)
        ensures
            r matches Some(i) ==> i < self.trusted_list_of().len() && self.trusted_list_of()[i as int] == key@,
            r is None ==> !self.trusted_list_of().contains(key@),
    {
        let mut i: usize = 0;
        while i < self.trusted_keys.len()
            invariant
                i <= self.trusted_keys@.len(),
                forall|j: int| 0 <= j < i ==> self.trusted_list_of()[j] != key@,
            decreases self.trusted_keys@.len() - i,
        {
            if bytes_eq(self.trusted_keys[i].as_slice(), key) {
                return Some(i);
            }
            i = i + 1;
        }
        None
    }

    fn find_role(&self, key: &[u8]) -> (r: Option<usize>)
        ensures
            r matches Some(i) ==> i < self.role_keys().len() && self.role_keys()[i as int] == key@,
            r is None ==> !self.role_keys().contains(key@),
    {
        let mut i: usize = 0;
        while i < self.roles.len()
            invariant
                i <= self.roles@.len(),
                forall|j: int| 0 <= j < i ==> self.role_keys()[j] != key@,
            decreases self.roles@.len() - i,
        {
            if bytes_eq(self.roles[i].key.as_slice(), key) {
                return Some(i);
            }
            i = i + 1;
        }
        None
    }

    /// Adds a key known to be a valid 32-byte public key to the trusted set.
    fn insert_trusted(&mut self, key: &[u8])
        requires
            old(self).wf(),
            key@.len() == 32,
            ed25519_key_valid(key@),
        ensures
            final(self).wf(),
            final(self).trusted_list_of() == (if old(self).trusted_list_of().contains(key@) {
                old(self).trusted_list_of()
            } else {
                old(self).trusted_list_of().push(key@)
            }),
            final(self).trusted() == old(self).trusted().insert(key@),
            final(self).roles() == old(self).roles(),
            final(self).role_keys() == old(self).role_keys(),
            final(self).secret() == old(self).secret(),
    {
        match self.find_trusted(key) {
            Some(_) => {
                assert(self.trusted_list_of().to_set() =~= self.trusted_list_of().to_set().insert(key@));
            },
            None => {
                let v = bytes_to_vec(key);
                let ghost old_list = self.trusted_list_of();
                let ghost old_roles = self.roles();
                self.trusted_keys.push(v);
                proof {
                    assert(self.trusted_list_of() =~= old_list.push(key@));
                    old_list.lemma_push_to_set_commute(key@);
                    assert(self.roles() =~= old_roles);
                }
            },
        }
    }

    /// Adds `bytes` to the trusted keys. Fails, changing nothing, when `bytes`
    /// is not 32 bytes long or not a valid Ed25519 public key.
    pub fn add_trusted_public_key(&mut self, bytes: &[u8]) -> (r: Result<(), SecError>)
        requires
            old(self).wf(),
        ensures
            final(self).wf(),
            r is Ok <==> bytes@.len() == 32 && ed25519_key_valid(bytes@),
            r matches Err(e) ==> e == (if bytes@.len() != 32 {
                SecError::InvalidKeyLength
            } else {
                SecError::InvalidKey
            }),
            final(self).trusted() == (if r is Ok {
                old(self).trusted().insert(bytes@)
            } else {
                old(self).trusted()
            }),
            final(self).roles() == old(self).roles(),
            final(self).secret() == old(self).secret(),
    {
        if bytes.len() != 32 {
            return Err(SecError::InvalidKeyLength);
        }
        if !ed25519_check_public(bytes) {
            return Err(SecError::InvalidKey);
        }
        self.insert_trusted(bytes);
        Ok(())
    }

    /// Gives `role` to a key known to be trusted, replacing any role it had.
    fn set_role(&mut self, key: &[u8], role: &str)
        requires
            old(self).wf(),
            old(self).trusted_list_of().contains(key@),
        ensures
            final(self).wf(),
            final(self).trusted_list_of() == old(self).trusted_list_of(),
            final(self).roles() == old(self).roles().insert(key@, role@),
            final(self).secret() == old(self).secret(),
    {
        let ghost old_keys = self.role_keys();
        let ghost old_roles = self.roles();
        match self.find_role(key) {
            Some(i) => {
                let entry = RoleEntry { key: bytes_to_vec(key), role: String::from_str(role) };
                self.roles.set(i, entry);
                proof {
                    assert(self.role_keys() =~= old_keys);
                    assert forall|k: Seq<u8>| #[trigger] self.role_keys().contains(k) && k != key@
                        implies self.roles@[self.role_keys().index_of(k)].role@
                        == old_roles[k] by {
                        let w = choose|w: int| 0 <= w < self.role_keys().len() && self.role_keys()[w] == k;
                        assert(old_keys[w] == k);
                        let j = self.role_keys().index_of(k);
                        assert(self.role_keys()[j] == k);
                        assert(old_keys.index_of(k) == j);
                    }
                    assert(self.roles@[self.role_keys().index_of(key@)].role@ == role@) by {
                        let j = self.role_keys().index_of(key@);
                        assert(self.role_keys()[j] == key@);
                        assert(self.role_keys()[i as int] == key@);
                    }
                    assert(self.roles() =~= old_roles.insert(key@, role@));
                }
            },
            None => {
                let entry = RoleEntry { key: bytes_to_vec(key), role: String::from_str(role) };
                self.roles.push(entry);
                proof {
                    assert(self.role_keys() =~= old_keys.push(key@));
                    assert forall|k: Seq<u8>| #[trigger] old_keys.contains(k)
                        implies self.roles@[self.role_keys().index_of(k)].role@
                        == old_roles[k] by {
                        let j0 = old_keys.index_of(k);
                        assert(old_keys[j0] == k);
                        assert(self.role_keys()[j0] == k);
                        let j = self.role_keys().index_of(k);
                        assert(self.role_keys()[j] == k);
                    }
                    assert(self.roles@[self.role_keys().index_of(key@)].role@ == role@) by {
                        let j = self.role_keys().index_of(key@);
                        assert(self.role_keys()[old_keys.len() as int] == key@);
                    }
                    assert(self.roles() =~= old_roles.insert(key@, role@));
                }
            },
        }
    }

    /// Adds `bytes` to the trusted keys and gives it `role`. Fails, changing
    /// nothing, as `add_trusted_public_key` does.
    pub fn add_trusted_public_key_with_role(&mut self, bytes: &[u8], role: &str) -> (r: Result<(), SecError>)
        requires
            old(self).wf(),
        ensures
            final(self).wf(),
            r is Ok <==> bytes@.len() == 32 && ed25519_key_valid(bytes@),
            r matches Err(e) ==> e == (if bytes@.len() != 32 {
                SecError::InvalidKeyLength
            } else {
                SecError::InvalidKey
            }),
            final(self).trusted() == (if r is Ok {
                old(self).trusted().insert(bytes@)
            } else {
                old(self).trusted()
            }),
            final(self).roles() == (if r is Ok {
                old(self).roles().insert(bytes@, role@)
            } else {
                old(self).roles()
            }),
            final(self).secret() == old(self).secret(),
    {
        if bytes.len() != 32 {
            return Err(SecError::InvalidKeyLength);
        }
        if !ed25519_check_public(bytes) {
            return Err(SecError::InvalidKey);
        }
        self.insert_trusted(bytes);
        self.set_role(bytes, role);
        Ok(())
    }

    /// Whether `key` is one of the trusted public keys.
    pub fn is_trusted(&self, key: &[u8]) -> (r: bool)
        requires
            self.wf(),
        ensures
            r == self.trusted().contains(key@),
    {
        match self.find_trusted(key) {
            Some(i) => {
                assert(self.trusted_list_of().contains(key@));
                true
            },
            None => false,
        }
    }

    /// Whether the 32 bytes `bytes` are a valid public key that is trusted.
    pub fn is_trusted_public_key(&self, bytes: &[u8]) -> (r: bool)
        requires
            self.wf(),
            bytes@.len() == 32,
        ensures
            r == self.trusted().contains(bytes@),
    {
        proof {
            self.lemma_well_formed();
        }
        if ed25519_check_public(bytes) {
            self.is_trusted(bytes)
        } else {
            false
        }
    }

    /// The role of `pubkey`, if it has one.
    pub fn get_role(&self, pubkey: &[u8]) -> (r: Option<&str>)
        requires
            self.wf(),
        ensures
            r is Some <==> self.roles().contains_key(pubkey@),
            r matches Some(s) ==> s@ == self.roles()[pubkey@],
    {
        match self.find_role(pubkey) {
            Some(i) => {
                proof {
                    let j = self.role_keys().index_of(pubkey@);
                    assert(self.role_keys()[i as int] == pubkey@);
                    assert(self.role_keys()[j] == pubkey@);
                }
                Some(self.roles[i].role.as_str())
            },
            None => None,
        }
    }

    /// The trusted public keys, each once, in export order.
    pub fn get_trusted_public_keys(&self) -> (r: Vec<Vec<u8>>)
        requires
            self.wf(),
        ensures
            r@.map_values(|k: Vec<u8>| k@) == self.trusted_list(),
            self.trusted_list().to_set() == self.trusted(),
            self.trusted_list().no_duplicates(),
    {
        let mut r: Vec<Vec<u8>> = Vec::new();
        let mut i: usize = 0;
        while i < self.trusted_keys.len()
            invariant
                i <= self.trusted_keys@.len(),
                r@.map_values(|k: Vec<u8>| k@) == self.trusted_list_of().subrange(0, i as int),
            decreases self.trusted_keys@.len() - i,
        {
            let ghost before = r@;
            r.push(bytes_to_vec(self.trusted_keys[i].as_slice()));
            i = i + 1;
            proof {
                before.lemma_push_map_commute(|k: Vec<u8>| k@, r@.last());
                assert(r@ == before.push(r@.last()));
                assert(self.trusted_list_of().subrange(0, i as int) =~= self.trusted_list_of().subrange(
                    0,
                    i - 1,
                ).push(self.trusted_list_of()[i - 1]));
            }
        }
        assert(self.trusted_list_of().subrange(0, i as int) =~= self.trusted_list_of());
        r
    }

    /// The number of trusted public keys.
    pub fn trusted_key_count(&self) -> (r: usize)
        requires
            self.wf(),
        ensures
            r == self.trusted().len(),
    {
        proof {
            self.lemma_well_formed();
        }
        self.trusted_keys.len()
    }

    /// The public key of the endorsement key, if one is set.
    pub fn endorsement_public_key(&self) -> (r: Option<Vec<u8>>)
        requires
            self.wf(),
        ensures
            r is Some <==> self.secret() is Some,
            r matches Some(k) ==> k@ == ed25519_public_key(self.secret()->0),
            r matches Some(k) ==> k@.len() == 32 && ed25519_key_valid(k@),
    {
        match &self.endorsement_key {
            Some(k) => Some(ed25519_derive_public(k.as_slice())),
            None => None,
        }
    }

    /// The signature of `data` under the endorsement key, if one is set.
    pub fn endorse(&self, data: &[u8]) -> (r: Option<Vec<u8>>)
        requires
            self.wf(),
        ensures
            r is Some <==> self.secret() is Some,
            r matches Some(sig) ==> sig@ == ed25519_signature(self.secret()->0, data@) && sig@.len()
                == 64,
            r matches Some(sig) ==> ed25519_verifies(ed25519_public_key(self.secret()->0), data@, sig@),
    {
        match &self.endorsement_key {
            Some(k) => Some(ed25519_sign(k.as_slice(), data)),
            None => None,
        }
    }

    /// A trusted key under which `sig` is a valid signature of `data`, if any.
    pub fn verify(&self, data: &[u8], sig: &[u8]) -> (r: Option<Vec<u8>>)
        requires
            self.wf(),
            sig@.len() == 64,
        ensures
            r matches Some(k) ==> self.trusted().contains(k@) && ed25519_verifies(k@, data@, sig@),
            r is None ==> forall|k: Seq<u8>|
                #[trigger] self.trusted().contains(k) ==> !ed25519_verifies(k, data@, sig@),
            r matches Some(k) ==> first_verifier(self.trusted_list(), data@, sig@) == Some(k@),
            r is None ==> first_verifier(self.trusted_list(), data@, sig@) is None,
    {
        proof {
            self.lemma_well_formed();
        }
        let ghost tl = self.trusted_list_of();
        let mut i: usize = 0;
        assert(tl.skip(0) =~= tl);
        while i < self.trusted_keys.len()
            invariant
                self.wf(),
                tl == self.trusted_list_of(),
                sig@.len() == 64,
                i <= self.trusted_keys@.len(),
                forall|j: int| 0 <= j < i ==> !ed25519_verifies(#[trigger] self.trusted_list_of()[j], data@, sig@),
                first_verifier(tl, data@, sig@) == first_verifier(tl.skip(i as int), data@, sig@),
            decreases self.trusted_keys@.len() - i,
        {
            assert(self.trusted_list_of()[i as int] == self.trusted_keys@[i as int]@);
            assert(tl.skip(i as int)[0] == tl[i as int]);
            assert(tl.skip(i as int).drop_first() =~= tl.skip(i + 1));
            if ed25519_verify(self.trusted_keys[i].as_slice(), data, sig) {
                let k = bytes_to_vec(self.trusted_keys[i].as_slice());
                assert(self.trusted_list_of().contains(k@));
                return Some(k);
            }
            i = i + 1;
        }
        proof {
            assert(tl.skip(i as int).len() == 0);
            assert forall|k: Seq<u8>| #[trigger] self.trusted().contains(k) implies !ed25519_verifies(k, data@, sig@) by {
                let j = choose|j: int| 0 <= j < self.trusted_list_of().len() && self.trusted_list_of()[j] == k;
            }
        }
        None
    }

    /// Sets the endorsement key from its 32 secret bytes. When `public_key` is
    /// given it must be the derived public key, and it becomes trusted. Fails,
    /// changing nothing, with the error `credentials_error` names.
    pub fn set_endorsement_credentials(&mut self, private_key: &[u8], public_key: Option<&[u8]>) -> (r: Result<(), SecError>)
        requires
            old(self).wf(),
        ensures
            final(self).wf(),
            r is Err <==> credentials_error(private_key@, opt_bytes_view(public_key)) is Some,
            r matches Err(e) ==> credentials_error(private_key@, opt_bytes_view(public_key)) == Some(e),
            r is Err ==> *final(self) == *old(self),
            r is Ok ==> final(self).secret() == Some(private_key@),
            r is Ok ==> final(self).trusted() == (match public_key {
                Some(p) => old(self).trusted().insert(p@),
                None => old(self).trusted(),
            }),
            r is Ok ==> final(self).roles() == old(self).roles(),
    {
        if private_key.len() != 32 {
            return Err(SecError::InvalidPrivateKey);
        }
        match public_key {
            Some(pubkey) => {
                if pubkey.len() != 32 {
                    return Err(SecError::InvalidPublicKey);
                }
                let derived = ed25519_derive_public(private_key);
                if !bytes_eq(derived.as_slice(), pubkey) {
                    return Err(SecError::KeyMismatch);
                }
                self.insert_trusted(pubkey);
            },
            None => {},
        }
        self.endorsement_key = Some(bytes_to_vec(private_key));
        Ok(())
    }

    /// `set_endorsement_credentials` with a public key, which then also gets `role`.
    pub fn set_endorsement_credentials_with_role(
        &mut self,
        private_key: &[u8],
        public_key: &[u8],
        role: &str,
    ) -> (r: Result<(), SecError>)
        requires
            old(self).wf(),
        ensures
            final(self).wf(),
            r is Err <==> credentials_error(private_key@, Some(public_key@)) is Some,
            r matches Err(e) ==> credentials_error(private_key@, Some(public_key@)) == Some(e),
            r is Err ==> *final(self) == *old(self),
            r is Ok ==> final(self).secret() == Some(private_key@),
            r is Ok ==> final(self).trusted() == old(self).trusted().insert(public_key@),
            r is Ok ==> final(self).roles() == old(self).roles().insert(public_key@, role@),
    {
        self.set_endorsement_credentials(private_key, Some(public_key))?;
        assert(self.trusted().contains(public_key@));
        assert(self.trusted_list_of().contains(public_key@));
        self.set_role(public_key, role);
        Ok(())
    }

    /// The trusted keys in base64, each with its role, in export order. Loading
    /// the entries gives back the trusted keys and the roles.
    pub fn to_entries(&self) -> (r: Vec<KeyEntry>)
        requires
            self.wf(),
        ensures
            r@.map_values(|e: KeyEntry| key_entry_view(e)) == key_entries_of(self.trusted_list(), self.roles()),
            load_key_entries(r@.map_values(|e: KeyEntry| key_entry_view(e))) == Ok::<_, SecError>((self.trusted(), self.roles())),
    {
        proof {
            self.lemma_well_formed();
        }
        let ghost keys = self.trusted_list_of();
        let ghost roles = self.roles();
        let mut r: Vec<KeyEntry> = Vec::new();
        let mut i: usize = 0;
        proof {
            assert(r@.map_values(|e: KeyEntry| key_entry_view(e)) =~= Seq::empty());
            assert(keys.subrange(0, 0).to_set() =~= Set::empty());
            assert(roles.restrict(Set::empty()) =~= Map::empty());
            assert(key_entries_of(keys, roles).subrange(0, 0) =~= Seq::empty());
        }
        while i < self.trusted_keys.len()
            invariant
                self.wf(),
                keys == self.trusted_list_of(),
                roles == self.roles(),
                forall|k: Seq<u8>| #[trigger] roles.contains_key(k) ==> keys.contains(k),
                keys.no_duplicates(),
                forall|j: int| 0 <= j < keys.len() ==> (#[trigger] keys[j]).len() == 32 && ed25519_key_valid(keys[j]),
                i <= keys.len(),
                r@.map_values(|e: KeyEntry| key_entry_view(e)) == key_entries_of(keys, roles).subrange(0, i as int),
                load_key_entries(r@.map_values(|e: KeyEntry| key_entry_view(e))) == Ok::<_, SecError>(
                    (keys.subrange(0, i as int).to_set(), roles.restrict(keys.subrange(0, i as int).to_set())),
                ),
            decreases keys.len() - i,
        {
            let key = self.trusted_keys[i].as_slice();
            assert(key@ == keys[i as int]);
            let pubkey = base64_encode(key);
            let role = match self.get_role(key) {
                Some(s) => Some(String::from_str(s)),
                None => None,
            };
            let entry = KeyEntry { pubkey, role };
            let ghost before = r@;
            r.push(entry);
            proof {
                let f = |e: KeyEntry| key_entry_view(e);
                before.lemma_push_map_commute(f, entry);
                let es = r@.map_values(f);
                let prev = before.map_values(f);
                assert(es.drop_last() =~= prev);
                assert(es =~= key_entries_of(keys, roles).subrange(0, i + 1));
                let pre = keys.subrange(0, i as int);
                let post = keys.subrange(0, i + 1);
                assert(post =~= pre.push(keys[i as int]));
                pre.lemma_push_to_set_commute(keys[i as int]);
                assert(roles.restrict(post.to_set()) =~= (if roles.contains_key(keys[i as int]) {
                    roles.restrict(pre.to_set()).insert(keys[i as int], roles[keys[i as int]])
                } else {
                    roles.restrict(pre.to_set())
                }));
            }
            i = i + 1;
        }
        proof {
            assert(keys.subrange(0, i as int) =~= keys);
            assert(key_entries_of(keys, roles).subrange(0, i as int) =~= key_entries_of(keys, roles));
            assert(roles.restrict(keys.to_set()) =~= roles);
        }
        r
    }

    /// A key store without endorsement key, holding the keys and roles of the
    /// entries. Fails with the error of the first entry that is not the base64
    /// of a valid public key.
    pub fn from_entries(entries: &Vec<KeyEntry>) -> (r: Result<KeyStore, SecError>)
        ensures
            r matches Ok(ks) ==> ks.wf() && ks.secret() is None && load_key_entries(
                entries@.map_values(|e: KeyEntry| key_entry_view(e)),
            ) == Ok::<_, SecError>((ks.trusted(), ks.roles())),
            r matches Err(e) ==> load_key_entries(entries@.map_values(|e: KeyEntry| key_entry_view(e)))
                == Err::<(Set<Seq<u8>>, Map<Seq<u8>, Seq<char>>), SecError>(e),
    {
        let ghost es = entries@.map_values(|e: KeyEntry| key_entry_view(e));
        let mut ks = KeyStore::new();
        let mut i: usize = 0;
        while i < entries.len()
            invariant
                es == entries@.map_values(|e: KeyEntry| key_entry_view(e)),
                i <= entries@.len(),
                ks.wf(),
                ks.secret() is None,
                load_key_entries(es.subrange(0, i as int)) == Ok::<_, SecError>((ks.trusted(), ks.roles())),
            decreases entries@.len() - i,
        {
            let entry = &entries[i];
            proof {
                assert(es.subrange(0, i + 1).drop_last() =~= es.subrange(0, i as int));
                assert(es.subrange(0, i + 1).last() == key_entry_view(*entry));
            }
            let key = match base64_decode(entry.pubkey.as_str()) {
                Some(k) => k,
                None => {
                    proof {
                        lemma_load_prefix_error(es, i as int + 1);
                    }
                    return Err(SecError::InvalidBase64);
                },
            };
            let added = match &entry.role {
                Some(role) => ks.add_trusted_public_key_with_role(key.as_slice(), role.as_str()),
                None => ks.add_trusted_public_key(key.as_slice()),
            };
            match added {
                Ok(()) => {},
                Err(e) => {
                    proof {
                        lemma_load_prefix_error(es, i as int + 1);
                    }
                    return Err(e);
                },
            }
            i = i + 1;
        }
        assert(es.subrange(0, i as int) =~= es);
        Ok(ks)
    }
}

impl Default for KeyStore {
    fn default() -> (r: KeyStore)
        ensures
            r.wf(),
            r.trusted() == Set::<Seq<u8>>::empty(),
            r.roles() == Map::<Seq<u8>, Seq<char>>::empty(),
            r.secret() is None,
    {
        KeyStore::new()
    }
}

} // verus!
