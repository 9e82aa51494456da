use std::any::Any;
use std::collections::HashSet;
use std::sync::{Arc, RwLock};

use anyhow::Result;
use ed25519_dalek::SigningKey;
use melda::adapter::Adapter;
use melda::melda::Melda;
use melda::memoryadapter::MemoryAdapter;
use serde_json::Value;

type JsonMap = serde_json::Map<String, Value>;

use melda_sec::adapter::{decode_signature_file, SecureAdapter, SignatureFile};
use melda_sec::deltafilter::DeltaFilter;
use melda_sec::deltaid::{is_parsable_delta_text, is_word, DeltaId};
use melda_sec::encryptionadapter::{EncryptedBlob, EncryptionAdapter};
use melda_sec::endorsement::EndorsementKey;
use melda_sec::error::SecError;
use melda_sec::keystore::{KeyEntry, KeyStore};
use melda_sec::policy::dsl::{RawRule, RuleDef};
use melda_sec::policy::engine::{PolicyEngine, PolicyRuleDef};
use melda_sec::policy::rule::RuleEffect;
use melda_sec::trustadapter::{
    check_endorsement_record, select_endorsements, EndorsementFetchResult, EndorsementMode, EndorsementRecord,
    ReadScreen, TrustAdapter,
};

// ---------------------------------------------------------------------------
// Storage used by the tests
// ---------------------------------------------------------------------------

#[derive(Clone)]
struct SharedMemoryAdapter {
    inner: Arc<RwLock<MemoryAdapter>>,
}

impl SharedMemoryAdapter {
    fn new() -> Self {
        Self { inner: Arc::new(RwLock::new(MemoryAdapter::new())) }
    }
}

impl Adapter for SharedMemoryAdapter {
    fn as_any(&self) -> &dyn Any {
        self
    }

    fn as_any_mut(&mut self) -> &mut dyn Any {
        self
    }

    fn read_object(&self, key: &str, offset: usize, length: usize) -> Result<Vec<u8>> {
        self.inner.read().unwrap().read_object(key, offset, length)
    }

    fn write_object(&self, key: &str, data: &[u8]) -> Result<()> {
        self.inner.write().unwrap().write_object(key, data)
    }

    fn list_objects(&self, ext: &str) -> Result<Vec<String>> {
        self.inner.read().unwrap().list_objects(ext)
    }
}

#[derive(Clone)]
struct SkipSigSharedMemoryAdapter {
    inner: Arc<RwLock<MemoryAdapter>>,
}

impl SkipSigSharedMemoryAdapter {
    fn new() -> Self {
        Self { inner: Arc::new(RwLock::new(MemoryAdapter::new())) }
    }
}

impl Adapter for SkipSigSharedMemoryAdapter {
    fn as_any(&self) -> &dyn Any {
        self
    }

    fn as_any_mut(&mut self) -> &mut dyn Any {
        self
    }

    fn read_object(&self, key: &str, offset: usize, length: usize) -> Result<Vec<u8>> {
        self.inner.read().unwrap().read_object(key, offset, length)
    }

    fn write_object(&self, key: &str, data: &[u8]) -> Result<()> {
        if !key.ends_with(".sig") {
            self.inner.write().unwrap().write_object(key, data)
        } else {
            Ok(())
        }
    }

    fn list_objects(&self, ext: &str) -> Result<Vec<String>> {
        self.inner.read().unwrap().list_objects(ext)
    }
}

// ---------------------------------------------------------------------------
// Glue between melda's adapters and the library
// ---------------------------------------------------------------------------

fn sec(e: SecError) -> anyhow::Error {
    anyhow::Error::msg(format!("{:?}", e))
}

fn fail(m: &str) -> anyhow::Error {
    anyhow::Error::msg(m.to_string())
}

fn gen_keys(seed: u8) -> (Vec<u8>, Vec<u8>) {
    let sk = SigningKey::from_bytes(&[seed; 32]);
    (sk.to_bytes().to_vec(), sk.verifying_key().to_bytes().to_vec())
}

fn yaml_str(v: &serde_yaml::Value, field: &str) -> Option<String> {
    v.get(field).and_then(|x| x.as_str()).map(|s| s.to_string())
}

fn yaml_rule_def(v: &serde_yaml::Value) -> RuleDef {
    RuleDef {
        key: yaml_str(v, "key"),
        role: yaml_str(v, "role"),
        objects: yaml_str(v, "objects").expect("objects"),
    }
}

fn policy_from_yaml(yaml: &str) -> Result<PolicyEngine> {
    let doc: serde_yaml::Value = serde_yaml::from_str(yaml)?;
    let mut rules = Vec::new();
    for r in doc.get("rules").and_then(|x| x.as_sequence()).ok_or_else(|| fail("rules"))? {
        rules.push(RawRule {
            allow: r.get("allow").map(yaml_rule_def),
            deny: r.get("deny").map(yaml_rule_def),
        });
    }
    PolicyEngine::from_raw_rules(&rules).map_err(sec)
}

fn allow_all_policy() -> PolicyEngine {
    policy_from_yaml(r#"rules: [{ allow: { objects: "*" } }]"#).unwrap()
}

fn lib_delta_id(id: &melda::melda::DeltaId) -> DeltaId {
    assert!(is_word(id.digest()));
    DeltaId::from_parts(id.index(), id.digest().clone())
}

fn record_to_json(r: &EndorsementRecord) -> Vec<u8> {
    let mut m = JsonMap::new();
    m.insert("version".to_string(), Value::from(r.version));
    m.insert("algorithm".to_string(), Value::String(r.algorithm.clone()));
    m.insert("signature".to_string(), Value::String(r.signature.clone()));
    serde_json::to_vec(&Value::Object(m)).unwrap()
}

fn record_from_json(bytes: &[u8]) -> Result<EndorsementRecord, SecError> {
    let v: Value = serde_json::from_slice(bytes).map_err(|_| SecError::InvalidRecord)?;
    let version = v.get("version").and_then(|x| x.as_u64()).ok_or(SecError::InvalidRecord)?;
    let version = u32::try_from(version).map_err(|_| SecError::InvalidRecord)?;
    let algorithm = v.get("algorithm").and_then(|x| x.as_str()).ok_or(SecError::InvalidRecord)?;
    let signature = v.get("signature").and_then(|x| x.as_str()).ok_or(SecError::InvalidRecord)?;
    Ok(EndorsementRecord { version, algorithm: algorithm.to_string(), signature: signature.to_string() })
}

struct FetchedSets {
    valid: HashSet<Vec<u8>>,
    #[allow(dead_code)]
    invalid: HashSet<Vec<u8>>,
}

fn fetched_sets(f: &EndorsementFetchResult) -> FetchedSets {
    FetchedSets {
        valid: f.valid().iter().cloned().collect(),
        invalid: f.invalid().iter().cloned().collect(),
    }
}

struct TrustLayer<A: Adapter> {
    ta: TrustAdapter<A>,
}

impl<A: Adapter + 'static> TrustLayer<A> {
    fn new_single(inner: A, keystore: KeyStore, policy: PolicyEngine) -> Self {
        Self { ta: TrustAdapter::new_single(inner, keystore, policy) }
    }

    fn new_majority(inner: A, keystore: KeyStore, policy: PolicyEngine) -> Self {
        Self { ta: TrustAdapter::new_majority(inner, keystore, policy) }
    }

    fn read_raw_record(&self, key: &EndorsementKey) -> Result<EndorsementRecord, SecError> {
        let bytes = self
            .ta
            .get_inner()
            .read_object(&key.file_name(), 0, 0)
            .map_err(|e| SecError::Storage(e.to_string()))?;
        record_from_json(&bytes)
    }

    fn read_endorsement_record(&self, key: &EndorsementKey) -> Result<EndorsementRecord> {
        let record = self.read_raw_record(key).map_err(sec)?;
        check_endorsement_record(record).map_err(sec)
    }

    fn fetch(&self, delta_id: &DeltaId) -> Result<EndorsementFetchResult> {
        let names: Vec<String> = self.ta.get_inner().list_objects(".sig").unwrap_or_default();
        for n in &names {
            assert!(EndorsementKey::is_parsable(n), "invalid endorsement file name");
        }
        let keys = select_endorsements(delta_id, &names);
        let mut items = Vec::new();
        for k in keys {
            let record = self.read_raw_record(&k);
            items.push((k, record));
        }
        self.ta.fetch_endorsements(delta_id, &items).map_err(sec)
    }

    fn fetch_endorsements(&self, delta_id: &melda::melda::DeltaId) -> Result<FetchedSets> {
        Ok(fetched_sets(&self.fetch(&lib_delta_id(delta_id))?))
    }

    fn endorse(&self, delta_id: &melda::melda::DeltaId) -> Result<()> {
        let id = lib_delta_id(delta_id);
        let key = self.ta.endorsement_target(&id).map_err(sec)?;
        let existing = self.read_raw_record(&key).ok();
        match self.ta.endorse(&id, existing).map_err(sec)? {
            None => Ok(()),
            Some(record) => self.ta.get_inner().write_object(&key.file_name(), &record_to_json(&record)),
        }
    }

    fn to_json(&self) -> Value {
        let ks = self.ta.get_keystore();
        let mut keys = Vec::new();
        for e in ks.to_entries() {
            let mut m = JsonMap::new();
            m.insert("pubkey".to_string(), Value::String(e.pubkey));
            m.insert("role".to_string(), e.role.map(Value::String).unwrap_or(Value::Null));
            keys.push(Value::Object(m));
        }
        let filter = self.ta.get_delta_filter();
        let mut keystore = JsonMap::new();
        keystore.insert("keys".to_string(), Value::Array(keys));
        keystore.insert(
            "deltaid_whitelist".to_string(),
            Value::Array(filter.get_whitelist().into_iter().map(Value::String).collect()),
        );
        keystore.insert(
            "deltaid_blacklist".to_string(),
            Value::Array(filter.get_blacklist().into_iter().map(Value::String).collect()),
        );
        let mut rules = Vec::new();
        for d in self.ta.get_policy().to_config() {
            let mut m = JsonMap::new();
            let effect = if d.effect == RuleEffect::Allow { "Allow" } else { "Deny" };
            m.insert("effect".to_string(), Value::String(effect.to_string()));
            m.insert("key".to_string(), d.key.map(Value::String).unwrap_or(Value::Null));
            m.insert("role".to_string(), d.role.map(Value::String).unwrap_or(Value::Null));
            m.insert("objects".to_string(), Value::String(d.objects));
            rules.push(Value::Object(m));
        }
        let mut policy = JsonMap::new();
        policy.insert("rules".to_string(), Value::Array(rules));
        let mode = match self.ta.get_endorsement_mode() {
            EndorsementMode::DISABLED => "DISABLED",
            EndorsementMode::SINGLE => "SINGLE",
            EndorsementMode::MAJORITY => "MAJORITY",
        };
        let mut config = JsonMap::new();
        config.insert("endorsement_mode".to_string(), Value::String(mode.to_string()));
        config.insert("keystore".to_string(), Value::Object(keystore));
        config.insert("policy".to_string(), Value::Object(policy));
        Value::Object(config)
    }

    fn from_json(inner: A, json: &Value) -> Result<Self> {
        let opt_str = |v: &Value, f: &str| v.get(f).and_then(|x| x.as_str()).map(|s| s.to_string());
        let strings = |v: &Value, f: &str| -> Vec<String> {
            v.get(f)
                .and_then(|x| x.as_array())
                .map(|a| a.iter().filter_map(|s| s.as_str().map(|s| s.to_string())).collect())
                .unwrap_or_default()
        };
        let ks_json = json.get("keystore").ok_or_else(|| fail("keystore"))?;
        let entries: Vec<KeyEntry> = ks_json
            .get("keys")
            .and_then(|x| x.as_array())
            .ok_or_else(|| fail("keys"))?
            .iter()
            .map(|e| KeyEntry { pubkey: opt_str(e, "pubkey").unwrap_or_default(), role: opt_str(e, "role") })
            .collect();
        let keystore = KeyStore::from_entries(&entries).map_err(sec)?;
        let whitelist = strings(ks_json, "deltaid_whitelist");
        let blacklist = strings(ks_json, "deltaid_blacklist");
        for t in whitelist.iter().chain(blacklist.iter()) {
            assert!(is_parsable_delta_text(t));
        }
        let filter = DeltaFilter::from_config(&whitelist, &blacklist).map_err(sec)?;
        let p_json = json.get("policy").ok_or_else(|| fail("policy"))?;
        let mut defs = Vec::new();
        for r in p_json.get("rules").and_then(|x| x.as_array()).ok_or_else(|| fail("rules"))? {
            let effect = match opt_str(r, "effect").as_deref() {
                Some("Allow") => RuleEffect::Allow,
                Some("Deny") => RuleEffect::Deny,
                _ => return Err(fail("effect")),
            };
            defs.push(PolicyRuleDef {
                effect,
                key: opt_str(r, "key"),
                role: opt_str(r, "role"),
                objects: opt_str(r, "objects").ok_or_else(|| fail("objects"))?,
            });
        }
        let policy = PolicyEngine::from_config(&defs).map_err(sec)?;
        let mode = match opt_str(json, "endorsement_mode").as_deref() {
            Some("DISABLED") => EndorsementMode::DISABLED,
            Some("SINGLE") => EndorsementMode::SINGLE,
            Some("MAJORITY") => EndorsementMode::MAJORITY,
            _ => return Err(fail("endorsement_mode")),
        };
        Ok(Self { ta: TrustAdapter::from_parts(inner, keystore, policy, filter, mode) })
    }
}

impl<A: Adapter + 'static> Adapter for TrustLayer<A> {
    fn as_any(&self) -> &dyn Any {
        self
    }

    fn as_any_mut(&mut self) -> &mut dyn Any {
        self
    }

    fn write_object(&self, key: &str, data: &[u8]) -> Result<()> {
        self.ta.get_inner().write_object(key, data)
    }

    fn read_object(&self, key: &str, offset: usize, length: usize) -> Result<Vec<u8>> {
        let data = self.ta.get_inner().read_object(key, 0, 0)?;
        assert!(offset.checked_add(length).is_some(), "slice overflow");
        if key.ends_with(".delta") && offset == 0 && length == 0 {
            assert!(is_parsable_delta_text(key), "delta index out of range");
        }
        match self.ta.screen_read(key, offset, length, data) {
            ReadScreen::Done(r) => r.map_err(sec),
            ReadScreen::Endorsements(id, data) => {
                let fetched = self.fetch(&id)?;
                self.ta.admit_delta(&fetched, data).map_err(sec)
            }
        }
    }

    fn list_objects(&self, ext: &str) -> Result<Vec<String>> {
        self.ta.get_inner().list_objects(ext)
    }
}

fn blob_to_json(b: &EncryptedBlob) -> Vec<u8> {
    let bytes = |v: &Vec<u8>| Value::Array(v.iter().map(|x| Value::from(*x)).collect());
    let mut m = JsonMap::new();
    m.insert("alg".to_string(), Value::String(b.alg.clone()));
    m.insert("nonce".to_string(), bytes(&b.nonce));
    m.insert("data".to_string(), bytes(&b.data));
    serde_json::to_vec(&Value::Object(m)).unwrap()
}

fn blob_from_json(bytes: &[u8]) -> Result<EncryptedBlob> {
    let v: Value = serde_json::from_slice(bytes).map_err(|_| fail("invalid encrypted blob"))?;
    let to_bytes = |f: &str| -> Result<Vec<u8>> {
        v.get(f)
            .and_then(|x| x.as_array())
            .ok_or_else(|| fail("invalid encrypted blob"))?
            .iter()
            .map(|x| x.as_u64().and_then(|n| u8::try_from(n).ok()).ok_or_else(|| fail("invalid encrypted blob")))
            .collect()
    };
    let alg = v.get("alg").and_then(|x| x.as_str()).ok_or_else(|| fail("invalid encrypted blob"))?;
    Ok(EncryptedBlob { alg: alg.to_string(), nonce: to_bytes("nonce")?, data: to_bytes("data")? })
}

struct EncryptionLayer<A: Adapter> {
    ea: EncryptionAdapter<A>,
}

impl<A: Adapter> EncryptionLayer<A> {
    fn new(inner: A, key: [u8; 32]) -> Self {
        Self { ea: EncryptionAdapter::new(inner, key) }
    }

    fn inner(&self) -> &A {
        self.ea.get_inner()
    }
}

impl<A: Adapter + 'static> Adapter for EncryptionLayer<A> {
    fn as_any(&self) -> &dyn Any {
        self
    }

    fn as_any_mut(&mut self) -> &mut dyn Any {
        self
    }

    fn write_object(&self, key: &str, data: &[u8]) -> Result<()> {
        let blob = self.ea.encrypt(data).map_err(sec)?;
        self.ea.get_inner().write_object(key, &blob_to_json(&blob))
    }

    fn read_object(&self, key: &str, offset: usize, length: usize) -> Result<Vec<u8>> {
        let enc = self.ea.get_inner().read_object(key, 0, 0)?;
        let blob = blob_from_json(&enc)?;
        assert!(blob.alg != "aes-256-gcm" || blob.nonce.len() == 12, "invalid nonce length");
        assert!(offset.checked_add(length).is_some(), "slice overflow");
        self.ea.open_object(&blob, offset, length).map_err(sec)
    }

    fn list_objects(&self, ext: &str) -> Result<Vec<String>> {
        self.ea.get_inner().list_objects(ext)
    }
}

fn signature_file_to_json(f: &SignatureFile) -> Vec<u8> {
    let mut m = JsonMap::new();
    m.insert("alg".to_string(), Value::String(f.alg.clone()));
    m.insert("pubkey".to_string(), Value::String(f.pubkey.clone()));
    m.insert("sig".to_string(), Value::String(f.sig.clone()));
    serde_json::to_vec(&Value::Object(m)).unwrap()
}

fn signature_file_from_json(bytes: &[u8]) -> Result<SignatureFile> {
    let v: Value = serde_json::from_slice(bytes)?;
    let s = |f: &str| -> Result<String> {
        Ok(v.get(f).and_then(|x| x.as_str()).ok_or_else(|| fail("invalid signature file"))?.to_string())
    };
    Ok(SignatureFile { alg: s("alg")?, pubkey: s("pubkey")?, sig: s("sig")? })
}

struct SecureLayer<A: Adapter> {
    sa: SecureAdapter<A>,
}

impl<A: Adapter> SecureLayer<A> {
    fn new(inner: A, keystore: KeyStore, policy: PolicyEngine) -> Self {
        Self { sa: SecureAdapter::new(inner, keystore, policy) }
    }

    fn strict_read(self, value: bool) -> Self {
        Self { sa: self.sa.strict_read(value) }
    }

    fn strict_write(self, value: bool) -> Self {
        Self { sa: self.sa.strict_write(value) }
    }
}

impl<A: Adapter + 'static> Adapter for SecureLayer<A> {
    fn as_any(&self) -> &dyn Any {
        self
    }

    fn as_any_mut(&mut self) -> &mut dyn Any {
        self
    }

    fn write_object(&self, key: &str, data: &[u8]) -> Result<()> {
        self.sa.check_write(key, data).map_err(sec)?;
        self.sa.get_inner().write_object(key, data)?;
        if let Some((name, f)) = self.sa.signature_for(key, data) {
            self.sa.get_inner().write_object(&name, &signature_file_to_json(&f))?;
        }
        Ok(())
    }

    fn read_object(&self, key: &str, offset: usize, length: usize) -> Result<Vec<u8>> {
        let data = self.sa.get_inner().read_object(key, offset, length)?;
        let sig = if key.ends_with(".delta") && offset == 0 && length == 0 {
            match self.sa.get_inner().read_object(&melda_sec::utils::sig_key(key), 0, 0) {
                Ok(bytes) => {
                    let f = signature_file_from_json(&bytes)?;
                    let s = decode_signature_file(&f).map_err(sec)?;
                    assert!(s.len() >= 64, "signature too short");
                    Some(s)
                }
                Err(_) => None,
            }
        } else {
            None
        };
        self.sa.signed_read(key, offset, length, data, sig).map_err(sec)
    }

    fn list_objects(&self, ext: &str) -> Result<Vec<String>> {
        self.sa.get_inner().list_objects(ext)
    }
}

fn dyn_adapter<T: Adapter + 'static>(a: T) -> Arc<RwLock<Box<dyn Adapter>>> {
    let b: Box<dyn Adapter> = Box::new(a);
    Arc::new(RwLock::new(b))
}

fn object(field: &str, value: i64) -> JsonMap {
    let mut m = JsonMap::new();
    m.insert(field.to_string(), Value::from(value));
    m
}

fn key() -> [u8; 32] {
    [7u8; 32]
}

// ---------------------------------------------------------------------------
// Encryption layer
// ---------------------------------------------------------------------------

#[test]
fn encryptionadapter_test_encrypt_decrypt_roundtrip() {
    let base = MemoryAdapter::new();
    let enc = EncryptionLayer::new(base, key());
    let data = b"hello world";
    enc.write_object("a", data).unwrap();
    let out = enc.read_object("a", 0, 0).unwrap();
    assert_eq!(data.to_vec(), out);
}

#[test]
fn encryptionadapter_test_deterministic_encryption() {
    let base = MemoryAdapter::new();
    let enc = EncryptionLayer::new(base, key());
    let data = b"same data";
    enc.write_object("a", data).unwrap();
    enc.write_object("b", data).unwrap();
    let a = enc.inner().read_object("a", 0, 0).unwrap();
    let b = enc.inner().read_object("b", 0, 0).unwrap();
    assert_eq!(a, b);
}

#[test]
fn encryptionadapter_test_different_plaintext_produces_different_ciphertext() {
    let base = MemoryAdapter::new();
    let enc = EncryptionLayer::new(base, key());
    enc.write_object("a", b"foo").unwrap();
    enc.write_object("b", b"bar").unwrap();
    let a = enc.inner().read_object("a", 0, 0).unwrap();
    let b = enc.inner().read_object("b", 0, 0).unwrap();
    assert_ne!(a, b);
}

#[test]
fn encryptionadapter_test_wrong_key_fails() {
    let base = MemoryAdapter::new();
    let enc = EncryptionLayer::new(base, key());
    enc.write_object("a", b"secret").unwrap();
    let wrong = EncryptionLayer::new(enc.ea.into_inner(), [1u8; 32]);
    let res = wrong.read_object("a", 0, 0);
    assert!(res.is_err());
}

#[test]
fn encryptionadapter_test_slice_read() {
    let base = MemoryAdapter::new();
    let enc = EncryptionLayer::new(base, key());
    enc.write_object("a", b"abcdef").unwrap();
    let out = enc.read_object("a", 2, 2).unwrap();
    assert_eq!(out, b"cd");
}

#[test]
fn encryptionadapter_test_list_objects_passthrough() {
    let base = MemoryAdapter::new();
    let enc = EncryptionLayer::new(base, key());
    enc.write_object("a.test", b"1").unwrap();
    enc.write_object("b.test", b"2").unwrap();
    let list = enc.list_objects("test").unwrap();
    assert_eq!(list.len(), 2);
}

#[test]
fn adapter_test_encrypt_decrypt_roundtrip() {
    let base = MemoryAdapter::new();
    let enc = EncryptionLayer::new(base, key());
    let data = b"hello world";
    enc.write_object("a", data).unwrap();
    let out = enc.read_object("a", 0, 0).unwrap();
    assert_eq!(data.to_vec(), out);
}

#[test]
fn adapter_test_deterministic_encryption() {
    let base = MemoryAdapter::new();
    let enc = EncryptionLayer::new(base, key());
    let data = b"same data";
    enc.write_object("a", data).unwrap();
    enc.write_object("b", data).unwrap();
    let a = enc.inner().read_object("a", 0, 0).unwrap();
    let b = enc.inner().read_object("b", 0, 0).unwrap();
    assert_eq!(a, b);
}

#[test]
fn adapter_test_different_plaintext_produces_different_ciphertext() {
    let base = MemoryAdapter::new();
    let enc = EncryptionLayer::new(base, key());
    enc.write_object("a", b"foo").unwrap();
    enc.write_object("b", b"bar").unwrap();
    let a = enc.inner().read_object("a", 0, 0).unwrap();
    let b = enc.inner().read_object("b", 0, 0).unwrap();
    assert_ne!(a, b);
}

#[test]
fn adapter_test_wrong_key_fails() {
    let base = MemoryAdapter::new();
    let enc = EncryptionLayer::new(base, key());
    enc.write_object("a", b"secret").unwrap();
    let wrong = EncryptionLayer::new(enc.ea.into_inner(), [1u8; 32]);
    let res = wrong.read_object("a", 0, 0);
    assert!(res.is_err());
}

#[test]
fn adapter_test_slice_read() {
    let base = MemoryAdapter::new();
    let enc = EncryptionLayer::new(base, key());
    enc.write_object("a", b"abcdef").unwrap();
    let out = enc.read_object("a", 2, 2).unwrap();
    assert_eq!(out, b"cd");
}

#[test]
fn adapter_test_list_objects_passthrough() {
    let base = MemoryAdapter::new();
    let enc = EncryptionLayer::new(base, key());
    enc.write_object("a.test", b"1").unwrap();
    enc.write_object("b.test", b"2").unwrap();
    let list = enc.list_objects("test").unwrap();
    assert_eq!(list.len(), 2);
}

// ---------------------------------------------------------------------------
// Signing layer
// ---------------------------------------------------------------------------

#[test]
fn test_missing_signature_non_strict() {
    let (_privk, pubk) = gen_keys(11);
    let shared = SharedMemoryAdapter::new();
    let ks_write = KeyStore::new();
    let secure_write = SecureLayer::new(shared.clone(), ks_write, allow_all_policy()).strict_read(false);
    let melda = Melda::new(dyn_adapter(secure_write)).unwrap();
    let _ = melda.create_object("x", object("a", 1));
    melda.commit(None).unwrap();

    let mut ks_read = KeyStore::new();
    ks_read.add_trusted_public_key(&pubk).unwrap();
    let secure_read = SecureLayer::new(shared.clone(), ks_read, allow_all_policy()).strict_read(false);
    let melda = Melda::new(dyn_adapter(secure_read)).unwrap();
    let _ = melda.reload();
    assert!(melda.get_all_objects().contains("x"));
}

#[test]
fn test_missing_signature_strict() {
    let (_privk, pubk) = gen_keys(12);
    let shared = SharedMemoryAdapter::new();
    let ks_write = KeyStore::new();
    let secure_write = SecureLayer::new(shared.clone(), ks_write, allow_all_policy()).strict_read(true);
    let melda = Melda::new(dyn_adapter(secure_write)).unwrap();
    let _ = melda.create_object("x", object("a", 1));
    melda.commit(None).unwrap();

    let mut ks_read = KeyStore::new();
    ks_read.add_trusted_public_key(&pubk).unwrap();
    let secure_read = SecureLayer::new(shared.clone(), ks_read, allow_all_policy()).strict_read(true);
    let melda = Melda::new(dyn_adapter(secure_read)).unwrap();
    let _ = melda.reload();
    assert!(!melda.get_all_objects().contains("x"));
}

#[test]
fn adapter_test_untrusted_key_filtered() {
    let (_p1, pub1) = gen_keys(13);
    let (priv2, _pub2) = gen_keys(14);
    let shared = SharedMemoryAdapter::new();
    let mut ks_joe = KeyStore::new();
    ks_joe.set_endorsement_credentials(&priv2, None).unwrap();
    let secure_joe = SecureLayer::new(shared.clone(), ks_joe, allow_all_policy());
    let melda = Melda::new(dyn_adapter(secure_joe)).unwrap();
    let _ = melda.create_object("joe", object("hack", 1));
    melda.commit(None).unwrap();

    let mut ks_read = KeyStore::new();
    ks_read.add_trusted_public_key(&pub1).unwrap();
    let secure_read = SecureLayer::new(shared.clone(), ks_read, allow_all_policy());
    let melda = Melda::new(dyn_adapter(secure_read)).unwrap();
    let _ = melda.reload();
    assert!(!melda.get_all_objects().contains("joe"));
}

#[test]
fn test_strict_write_blocks() {
    let (privk, pubk) = gen_keys(15);
    let shared = SharedMemoryAdapter::new();
    let mut ks = KeyStore::new();
    ks.set_endorsement_credentials(&privk, None).unwrap();
    ks.add_trusted_public_key(&pubk).unwrap();
    let secure = SecureLayer::new(shared, ks, policy_from_yaml(r#"rules: [{ deny: { objects: "*" } }]"#).unwrap())
        .strict_write(true);
    let melda = Melda::new(dyn_adapter(secure)).unwrap();
    let _ = melda.create_object("x", object("x", 1));
    assert!(melda.commit(None).is_err());
}

#[test]
fn test_policy_violation_non_strict() {
    let (privk, pubk) = gen_keys(16);
    let shared = SharedMemoryAdapter::new();
    let mut ks = KeyStore::new();
    ks.set_endorsement_credentials(&privk, None).unwrap();
    ks.add_trusted_public_key(&pubk).unwrap();
    let secure = SecureLayer::new(shared, ks, policy_from_yaml(r#"rules: [{ deny: { objects: "*" } }]"#).unwrap())
        .strict_read(false);
    let melda = Melda::new(dyn_adapter(secure)).unwrap();
    let _ = melda.create_object("x", object("x", 1));
    melda.commit(None).unwrap();
    let _ = melda.reload();
    assert!(!melda.get_all_objects().contains("x"));
}

// ---------------------------------------------------------------------------
// Trust layer
// ---------------------------------------------------------------------------

fn trust_layer_of<'a>(a: &'a Box<dyn Adapter>) -> &'a TrustLayer<SharedMemoryAdapter> {
    a.as_any().downcast_ref::<TrustLayer<SharedMemoryAdapter>>().unwrap()
}

#[test]
fn test_valid_signature() {
    let (privk, pubk) = gen_keys(21);
    let shared = SharedMemoryAdapter::new();
    let mut ks_write = KeyStore::new();
    let _ = ks_write.add_trusted_public_key(&pubk);
    let _ = ks_write.set_endorsement_credentials(&privk, Some(&pubk));
    let (_privk2, pubk2) = gen_keys(22);
    let _ = ks_write.add_trusted_public_key(&pubk2);

    let adapter = dyn_adapter(TrustLayer::new_single(shared.clone(), ks_write, allow_all_policy()));
    let melda = Melda::new(adapter.clone()).unwrap();
    let _ = melda.create_object("x", object("a", 1));
    let blockid = melda.commit(None).unwrap().unwrap();
    assert!(blockid.len() == 1);
    let blockid = blockid.first().unwrap();

    let guard = adapter.read().unwrap();
    let layer = trust_layer_of(&guard);
    layer.endorse(blockid).unwrap();
    assert!(layer.fetch_endorsements(blockid).is_ok());
    assert_eq!(layer.fetch_endorsements(blockid).unwrap().valid.len(), 1);
    assert!(layer.fetch_endorsements(blockid).unwrap().valid.contains(pubk.as_slice()));
}

#[test]
fn test_json_serialization() {
    let (privk, pubk) = gen_keys(23);
    let shared = SharedMemoryAdapter::new();
    let mut ks = KeyStore::new();
    ks.set_endorsement_credentials(&privk, Some(&pubk)).unwrap();

    let mut policy = PolicyEngine::new();
    policy.add_rule(None, Some("owner".to_string()), "*".to_string(), RuleEffect::Allow).unwrap();

    let mut trust = TrustLayer::new_single(shared.clone(), ks, policy);
    let _ = trust.ta.add_delta_to_whitelist(&DeltaId::from("1-allowed.delta").unwrap());
    let _ = trust.ta.add_delta_to_blacklist(&DeltaId::from("1-blocked.delta").unwrap());

    let config_value = trust.to_json();
    let config_obj = config_value.as_object().unwrap();
    assert!(config_obj.contains_key("keystore"));
    assert!(config_obj.contains_key("policy"));
    assert!(config_obj.contains_key("endorsement_mode"));

    let keystore_value = &config_value["keystore"];
    assert_eq!(keystore_value["keys"].as_array().unwrap().len(), 1);
    assert_eq!(keystore_value["deltaid_whitelist"].as_array().unwrap().len(), 1);
    assert_eq!(keystore_value["deltaid_blacklist"].as_array().unwrap().len(), 1);
    assert!(keystore_value.get("endorsement_key").is_none());
    assert!(config_value.get("policy").is_some());
    let policy_value = &config_value["policy"];
    assert!(policy_value.get("rules").is_some());

    let roundtrip = TrustLayer::from_json(shared, &config_value).unwrap();
    assert!(roundtrip.ta.get_keystore().endorsement_public_key().is_none());
    assert!(roundtrip.ta.get_keystore().endorse(&[1, 2, 3]).is_none());
    assert_eq!(roundtrip.ta.get_keystore().get_trusted_public_keys().len(), 1);
    assert!(roundtrip.ta.get_delta_filter().is_whitelisted(&DeltaId::from("1-allowed.delta").unwrap()));
    assert!(roundtrip.ta.get_delta_filter().is_blacklisted(&DeltaId::from("1-blocked.delta").unwrap()));
}

#[test]
fn test_endorse_explicit() {
    let (privk, pubk) = gen_keys(24);
    let (privk2, pubk2) = gen_keys(25);
    let shared = SharedMemoryAdapter::new();
    let mut ks_write = KeyStore::new();
    let _ = ks_write.add_trusted_public_key(&pubk);
    let _ = ks_write.set_endorsement_credentials(&privk, Some(&pubk));

    let adapter = dyn_adapter(TrustLayer::new_single(shared.clone(), ks_write, allow_all_policy()));
    let melda = Melda::new(adapter.clone()).unwrap();
    let _ = melda.create_object("x", object("a", 1));
    let blockid = melda.commit(None).unwrap().unwrap();
    let blockid = blockid.first().unwrap();

    let mut guard = adapter.write().unwrap();
    let layer = guard.as_any_mut().downcast_mut::<TrustLayer<SharedMemoryAdapter>>().unwrap();
    assert!(layer.fetch_endorsements(blockid).is_ok());
    assert_eq!(layer.fetch_endorsements(blockid).unwrap().valid.len(), 0);

    layer.ta.get_keystore_mut().set_endorsement_credentials(&privk2, Some(&pubk2)).unwrap();
    assert!(layer.endorse(blockid).is_ok());
    assert_eq!(layer.fetch_endorsements(blockid).unwrap().valid.len(), 1);
    assert!(layer.fetch_endorsements(blockid).unwrap().valid.contains(pubk2.as_slice()));
}

#[test]
fn test_signature_file_json_format() {
    let (privk, pubk) = gen_keys(26);
    let shared = SharedMemoryAdapter::new();
    let mut ks_write = KeyStore::new();
    let _ = ks_write.add_trusted_public_key(&pubk);
    let _ = ks_write.set_endorsement_credentials(&privk, Some(&pubk));

    let adapter = dyn_adapter(TrustLayer::new_single(shared.clone(), ks_write, allow_all_policy()));
    let melda = Melda::new(adapter.clone()).unwrap();
    let _ = melda.create_object("x", object("a", 1));
    let blockid = melda.commit(None).unwrap().unwrap();
    let blockid = blockid.first().unwrap();

    let guard = adapter.read().unwrap();
    let layer = trust_layer_of(&guard);
    assert!(layer.endorse(blockid).is_ok());
    let sig_path = EndorsementKey::new(lib_delta_id(blockid), pubk);
    let endorsement = layer.read_endorsement_record(&sig_path).unwrap();
    assert_eq!(endorsement.version, 1);
    assert_eq!(endorsement.algorithm, "Ed25519");
    assert!(!endorsement.signature.is_empty());
}

fn three_trusted(pub1: &[u8], pub2: &[u8], pub3: &[u8]) -> KeyStore {
    let mut ks = KeyStore::new();
    let _ = ks.add_trusted_public_key(pub1);
    let _ = ks.add_trusted_public_key(pub2);
    let _ = ks.add_trusted_public_key(pub3);
    ks
}

#[test]
fn test_majority_endorsement() {
    let (priv1, pub1) = gen_keys(31);
    let (priv2, pub2) = gen_keys(32);
    let (_priv3, pub3) = gen_keys(33);
    let shared = SharedMemoryAdapter::new();

    let mut ks_write = KeyStore::new();
    let _ = ks_write.set_endorsement_credentials(&priv1, Some(&pub1));
    let adapter = dyn_adapter(TrustLayer::new_majority(shared.clone(), ks_write, allow_all_policy()));
    let melda = Melda::new(adapter.clone()).unwrap();
    let _ = melda.create_object("y", object("a", 2));
    let blockid = melda.commit(None).unwrap().unwrap();
    {
        let guard = adapter.read().unwrap();
        trust_layer_of(&guard).endorse(blockid.first().unwrap()).unwrap();
    }
    let blockid = blockid.first().unwrap();

    let secure_read = TrustLayer::new_majority(shared.clone(), three_trusted(&pub1, &pub2, &pub3), allow_all_policy());
    let melda_read = Melda::new(dyn_adapter(secure_read)).unwrap();
    let _ = melda_read.reload();
    assert!(!melda_read.get_all_objects().contains("y"));

    let mut ks_second = KeyStore::new();
    let _ = ks_second.set_endorsement_credentials(&priv2, Some(&pub2));
    let second = TrustLayer::new_majority(shared.clone(), ks_second, allow_all_policy());
    assert!(second.endorse(blockid).is_ok());

    let read2 = TrustLayer::new_majority(shared.clone(), three_trusted(&pub1, &pub2, &pub3), allow_all_policy());
    let melda_read2 = Melda::new(dyn_adapter(read2)).unwrap();
    let _ = melda_read2.reload();
    assert!(melda_read2.get_all_objects().contains("y"));
}

#[test]
fn test_majority_endorsement_not_enough() {
    let (priv1, pub1) = gen_keys(34);
    let (_priv2, pub2) = gen_keys(35);
    let (_priv3, pub3) = gen_keys(36);
    let shared = SharedMemoryAdapter::new();

    let mut ks_write = KeyStore::new();
    let _ = ks_write.set_endorsement_credentials(&priv1, Some(&pub1));
    let melda = Melda::new(dyn_adapter(TrustLayer::new_majority(shared.clone(), ks_write, allow_all_policy()))).unwrap();
    let _ = melda.create_object("y", object("a", 2));
    let blockid = melda.commit(None).unwrap().unwrap();
    let _ = blockid.first().unwrap();

    let read = TrustLayer::new_majority(shared.clone(), three_trusted(&pub1, &pub2, &pub3), allow_all_policy());
    let melda_read = Melda::new(dyn_adapter(read)).unwrap();
    let _ = melda_read.reload();
    assert!(!melda_read.get_all_objects().contains("y"));

    let read2 = TrustLayer::new_majority(shared.clone(), three_trusted(&pub1, &pub2, &pub3), allow_all_policy());
    let melda_read2 = Melda::new(dyn_adapter(read2)).unwrap();
    let _ = melda_read2.reload();
    assert!(!melda_read2.get_all_objects().contains("y"));
}

#[test]
fn test_missing_signature() {
    let (privk, pubk) = gen_keys(41);
    let shared = SkipSigSharedMemoryAdapter::new();
    let mut ks_write = KeyStore::new();
    ks_write.set_endorsement_credentials(&privk, Some(&pubk)).unwrap();
    let melda = Melda::new(dyn_adapter(TrustLayer::new_single(shared.clone(), ks_write, allow_all_policy()))).unwrap();
    let _ = melda.create_object("x", object("a", 1));
    assert!(melda.commit(None).is_ok());

    let mut ks_read = KeyStore::new();
    ks_read.add_trusted_public_key(&pubk).unwrap();
    let melda = Melda::new(dyn_adapter(TrustLayer::new_single(shared.clone(), ks_read, allow_all_policy()))).unwrap();
    let _ = melda.reload();
    assert!(!melda.get_all_objects().contains("x"));
}

#[test]
fn trustadapter_test_untrusted_key_filtered() {
    let (_p1, pub1) = gen_keys(42);
    let (priv2, pub2) = gen_keys(43);
    let shared = SharedMemoryAdapter::new();
    let mut ks_joe = KeyStore::new();
    ks_joe.set_endorsement_credentials(&priv2, Some(&pub2)).unwrap();
    let melda = Melda::new(dyn_adapter(TrustLayer::new_single(shared.clone(), ks_joe, allow_all_policy()))).unwrap();
    let _ = melda.create_object("joe", object("hack", 1));
    melda.commit(None).unwrap();

    let mut ks_read = KeyStore::new();
    ks_read.add_trusted_public_key(&pub1).unwrap();
    let melda = Melda::new(dyn_adapter(TrustLayer::new_single(shared.clone(), ks_read, allow_all_policy()))).unwrap();
    let _ = melda.reload();
    assert!(!melda.get_all_objects().contains("joe"));
}

#[test]
fn test_whitelist() {
    let (_p1, pub1) = gen_keys(44);
    let (priv2, pub2) = gen_keys(45);
    let shared = SharedMemoryAdapter::new();
    let mut ks_joe = KeyStore::new();
    ks_joe.set_endorsement_credentials(&priv2, Some(&pub2)).unwrap();
    let melda = Melda::new(dyn_adapter(TrustLayer::new_single(shared.clone(), ks_joe, allow_all_policy()))).unwrap();
    let _ = melda.create_object("joe", object("hack", 1));
    let deltaids = melda.commit(None).unwrap();

    let mut ks_read = KeyStore::new();
    ks_read.add_trusted_public_key(&pub1).unwrap();
    let mut read = TrustLayer::new_single(shared.clone(), ks_read, allow_all_policy());
    let _ = read.ta.add_delta_to_whitelist(&lib_delta_id(deltaids.unwrap().first().unwrap()));
    let melda = Melda::new(dyn_adapter(read)).unwrap();
    let _ = melda.reload();
    assert!(melda.get_all_objects().contains("joe"));
}

#[test]
fn test_trusted_key() {
    let (_p1, pub1) = gen_keys(46);
    let (priv2, pub2) = gen_keys(47);
    let shared = SharedMemoryAdapter::new();
    let mut ks_joe = KeyStore::new();
    ks_joe.set_endorsement_credentials(&priv2, Some(&pub2)).unwrap();
    let adapter = dyn_adapter(TrustLayer::new_single(shared.clone(), ks_joe, allow_all_policy()));
    let melda = Melda::new(adapter.clone()).unwrap();
    let _ = melda.create_object("joe", object("hack", 1));
    let delta_id = melda.commit(None).unwrap().unwrap();
    {
        let guard = adapter.read().unwrap();
        trust_layer_of(&guard).endorse(delta_id.first().unwrap()).unwrap();
    }

    let mut ks_read = KeyStore::new();
    ks_read.add_trusted_public_key(&pub1).unwrap();
    ks_read.add_trusted_public_key(&pub2).unwrap();
    let melda = Melda::new(dyn_adapter(TrustLayer::new_single(shared.clone(), ks_read, allow_all_policy()))).unwrap();
    let _ = melda.reload();
    assert!(melda.get_all_objects().contains("joe"));
}

#[test]
fn test_blacklist() {
    let (_p1, pub1) = gen_keys(48);
    let (priv2, pub2) = gen_keys(49);
    let shared = SharedMemoryAdapter::new();
    let mut ks_joe = KeyStore::new();
    ks_joe.set_endorsement_credentials(&priv2, Some(&pub2)).unwrap();
    let melda = Melda::new(dyn_adapter(TrustLayer::new_single(shared.clone(), ks_joe, allow_all_policy()))).unwrap();
    let _ = melda.create_object("joe", object("hack", 1));
    let deltaids = melda.commit(None).unwrap();

    let mut ks_read = KeyStore::new();
    ks_read.add_trusted_public_key(&pub1).unwrap();
    ks_read.add_trusted_public_key(&pub2).unwrap();
    let mut read = TrustLayer::new_single(shared.clone(), ks_read, allow_all_policy());
    let _ = read.ta.add_delta_to_blacklist(&lib_delta_id(deltaids.unwrap().first().unwrap()));
    let melda = Melda::new(dyn_adapter(read)).unwrap();
    let _ = melda.reload();
    assert!(!melda.get_all_objects().contains("joe"));
}
