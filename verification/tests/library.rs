use base64::Engine;
use ed25519_dalek::{Signer, SigningKey};
use sha2::{Digest, Sha256};

use melda_sec::adapter::{decode_signature_file, SecureAdapter, SignatureFile};
use melda_sec::deltafilter::DeltaFilter;
use melda_sec::deltaid::{is_parsable_delta_text, is_word, DeltaId};
use melda_sec::encryptionadapter::{EncryptedBlob, EncryptionAdapter};
use melda_sec::endorsement::EndorsementKey;
use melda_sec::error::SecError;
use melda_sec::keystore::{KeyEntry, KeyStore};
use melda_sec::policy::dsl::{RawRule, RuleDef};
use melda_sec::policy::engine::PolicyEngine;
use melda_sec::policy::rule::{Rule, RuleEffect};
use melda_sec::trustadapter::{
    check_endorsement_record, select_endorsements, EndorsementFetchResult, EndorsementMode, EndorsementRecord,
    ReadScreen, TrustAdapter,
};
use melda_sec::utils::{extract_created_and_modified_object_ids, read_slice, sig_key};

fn base64_encode(bytes: &[u8]) -> String {
    base64::engine::general_purpose::STANDARD.encode(bytes)
}

fn keys(seed: u8) -> (Vec<u8>, Vec<u8>) {
    let sk = SigningKey::from_bytes(&[seed; 32]);
    (sk.to_bytes().to_vec(), sk.verifying_key().to_bytes().to_vec())
}

fn sign(seed: u8, msg: &[u8]) -> Vec<u8> {
    SigningKey::from_bytes(&[seed; 32]).sign(msg).to_bytes().to_vec()
}

fn allow_all() -> PolicyEngine {
    let mut p = PolicyEngine::new();
    p.allow_all();
    p
}

fn record(sig: &[u8]) -> EndorsementRecord {
    EndorsementRecord { version: 1, algorithm: "Ed25519".to_string(), signature: base64_encode(sig) }
}

fn delta_with(ids: &[&str]) -> Vec<u8> {
    let entries: Vec<String> = ids.iter().map(|i| format!("[\"{}\",\"h\"]", i)).collect();
    format!("{{\"c\":[{}]}}", entries.join(",")).into_bytes()
}

// ---------------------------------------------------------------------------
// utils
// ---------------------------------------------------------------------------

#[test]
fn sig_key_appends_extension() {
    assert_eq!(sig_key("1-abc.delta"), "1-abc.delta.sig");
    assert_eq!(sig_key(""), ".sig");
}

#[test]
fn extract_ids_reads_change_records() {
    let data = br#"{"c":[["x",1],["y"],[3],"z",[]],"p":[]}"#;
    assert_eq!(extract_created_and_modified_object_ids(data), vec!["x".to_string(), "y".to_string()]);
    assert!(extract_created_and_modified_object_ids(b"not json").is_empty());
    assert!(extract_created_and_modified_object_ids(br#"{"c":{"x":1}}"#).is_empty());
    assert!(extract_created_and_modified_object_ids(br#"[["x"]]"#).is_empty());
}

#[test]
fn read_slice_whole_part_and_out_of_range() {
    assert_eq!(read_slice(b"abcdef".to_vec(), 0, 0), Ok(b"abcdef".to_vec()));
    assert_eq!(read_slice(b"abcdef".to_vec(), 2, 3), Ok(b"cde".to_vec()));
    assert_eq!(read_slice(b"abcdef".to_vec(), 4, 3), Err(SecError::InvalidSlice));
    assert_eq!(read_slice(b"abcdef".to_vec(), 6, 0), Ok(Vec::new()));
}

// ---------------------------------------------------------------------------
// delta identifiers and endorsement names
// ---------------------------------------------------------------------------

#[test]
fn delta_id_parses_and_prints_back() {
    let id = DeltaId::from("12-abc.delta").unwrap();
    assert_eq!(id.index(), 12);
    assert_eq!(id.digest(), "abc");
    assert_eq!(id.key(), "12-abc.delta");
    let again = DeltaId::from(&id.key()).unwrap();
    assert!(again.same_as(&id));
    assert_eq!(DeltaId::from("nothing here").err(), Some(SecError::InvalidDeltaId));
    let leftmost = DeltaId::from("1-a-99999999999-b.delta").unwrap();
    assert_eq!(leftmost.index(), 1);
    assert_eq!(leftmost.digest(), "a");
    let accented = DeltaId::from("1-é.delta").unwrap();
    assert_eq!(accented.index(), 1);
    assert_eq!(accented.digest(), "é");
    assert_eq!(DeltaId::from_parts(3, "ff".to_string()).key(), "3-ff.delta");
}

#[test]
fn delta_text_checks() {
    assert!(is_parsable_delta_text("4294967295-a.delta"));
    assert!(!is_parsable_delta_text("4294967296-a.delta"));
    assert!(is_parsable_delta_text("4294967296"));
    assert!(is_parsable_delta_text("1-é.delta"));
    assert!(is_parsable_delta_text("1-a-99999999999-b.delta"));
    assert!(!is_parsable_delta_text("x 99999999999-b 1-a.delta"));
    assert!(!is_parsable_delta_text("\u{0661}-a"));
    assert!(is_parsable_delta_text("\u{00BD}1-a"));
    assert!(is_word("abc_09Z"));
    assert!(!is_word(""));
    assert!(!is_word("a-b"));
}

#[test]
fn endorsement_name_round_trip() {
    let id = DeltaId::from("7-0abc.delta").unwrap();
    let key = EndorsementKey::new(id, vec![0xde, 0xad]);
    assert_eq!(key.file_name(), "7-0abc.delta.dead.sig");
    let parsed = EndorsementKey::from(&key.file_name()).unwrap();
    assert!(parsed.delta_id().same_as(key.delta_id()));
    assert_eq!(parsed.pubkey(), &vec![0xde, 0xad]);
    let stripped = EndorsementKey::from("7-0abc.delta.dead").unwrap();
    assert_eq!(stripped.pubkey(), &vec![0xde, 0xad]);
    assert_eq!(EndorsementKey::from("readme.txt").err(), Some(SecError::InvalidEndorsementKey));
    assert!(!EndorsementKey::is_parsable("1-ab.delta.abc"));
    assert!(EndorsementKey::is_parsable("readme.txt"));
    let plus = EndorsementKey::from("+1-ab.delta.00").unwrap();
    assert_eq!(plus.delta_id().key(), "1-ab.delta");
    let inner_plus = EndorsementKey::from("1+2-ab.delta.00.sig").unwrap();
    assert_eq!(inner_plus.delta_id().key(), "2-ab.delta");
    assert_eq!(inner_plus.pubkey(), &vec![0u8]);
    assert!(!EndorsementKey::is_parsable("1+-ab.delta.00"));
    assert!(!EndorsementKey::is_parsable("99999999999-ab.delta.00"));
    let accented = EndorsementKey::from("é1-ab.delta.00").unwrap();
    assert_eq!(accented.delta_id().key(), "1-ab.delta");
    assert!(!EndorsementKey::is_parsable("\u{0661}1-ab.delta.00"));
    let half = EndorsementKey::from("\u{00BD}1-ab.delta.cd.sig").unwrap();
    assert_eq!(half.delta_id().key(), "1-ab.delta");
    assert_eq!(half.pubkey(), &vec![0xcd]);
    let arabic_plus = EndorsementKey::from("\u{0663}+1-ab.delta.cd").unwrap();
    assert_eq!(arabic_plus.delta_id().key(), "1-ab.delta");
    assert!(EndorsementKey::is_parsable("\u{00BD}-ab.delta.cd.sig"));
    assert_eq!(
        EndorsementKey::from("\u{00BD}-ab.delta.cd.sig").err(),
        Some(SecError::InvalidEndorsementKey)
    );
}

#[test]
fn select_endorsements_keeps_matching_delta() {
    let id = DeltaId::from("2-aa.delta").unwrap();
    let names = vec![
        "2-aa.delta.0102".to_string(),
        "3-aa.delta.0304".to_string(),
        "notes".to_string(),
        "2-aa.delta.0506.sig".to_string(),
    ];
    let keys = select_endorsements(&id, &names);
    assert_eq!(keys.len(), 2);
    assert_eq!(keys[0].pubkey(), &vec![1, 2]);
    assert_eq!(keys[1].pubkey(), &vec![5, 6]);
}

// ---------------------------------------------------------------------------
// key store
// ---------------------------------------------------------------------------

#[test]
fn keystore_trusted_keys_and_roles() {
    let (_s1, p1) = keys(1);
    let (_s2, p2) = keys(2);
    let mut ks = KeyStore::new();
    assert_eq!(ks.add_trusted_public_key(&[1, 2, 3]), Err(SecError::InvalidKeyLength));
    ks.add_trusted_public_key(&p1).unwrap();
    ks.add_trusted_public_key(&p1).unwrap();
    ks.add_trusted_public_key_with_role(&p2, "editor").unwrap();
    assert_eq!(ks.trusted_key_count(), 2);
    assert!(ks.is_trusted(&p1));
    assert!(ks.is_trusted_public_key(&p2));
    assert_eq!(ks.get_role(&p2), Some("editor"));
    assert_eq!(ks.get_role(&p1), None);
    assert_eq!(ks.get_trusted_public_keys(), vec![p1.clone(), p2.clone()]);
}

#[test]
fn keystore_rejects_points_off_the_curve() {
    let mut candidate = None;
    for i in 0..=255u8 {
        let mut bytes = [0u8; 32];
        bytes[0] = i;
        bytes[31] = 0x7f;
        if ed25519_dalek::VerifyingKey::from_bytes(&bytes).is_err() {
            candidate = Some(bytes);
            break;
        }
    }
    let bytes = candidate.expect("some 32-byte string is not a point");
    let mut ks = KeyStore::new();
    assert_eq!(ks.add_trusted_public_key(&bytes), Err(SecError::InvalidKey));
    assert!(!ks.is_trusted_public_key(&bytes));
    assert_eq!(ks.trusted_key_count(), 0);
}

#[test]
fn allow_all_lets_every_key_change_everything() {
    let (_s1, p1) = keys(50);
    let ks = KeyStore::new();
    let policy = allow_all();
    assert!(policy.allows(&ks, &p1, "anything"));
    assert!(policy.allows(&ks, &[0u8; 32], ""));
}

#[test]
fn keystore_default_is_empty() {
    let ks = KeyStore::default();
    assert_eq!(ks.trusted_key_count(), 0);
    assert!(ks.endorsement_public_key().is_none());
    assert!(ks.to_entries().is_empty());
}

#[test]
fn keystore_credentials_errors() {
    let (s1, p1) = keys(1);
    let (_s2, p2) = keys(2);
    let mut ks = KeyStore::new();
    assert_eq!(ks.set_endorsement_credentials(&[0u8; 5], None), Err(SecError::InvalidPrivateKey));
    assert_eq!(ks.set_endorsement_credentials(&s1, Some(&[0u8; 5])), Err(SecError::InvalidPublicKey));
    assert_eq!(ks.set_endorsement_credentials(&s1, Some(&p2)), Err(SecError::KeyMismatch));
    assert!(ks.endorsement_public_key().is_none());
    ks.set_endorsement_credentials(&s1, Some(&p1)).unwrap();
    assert_eq!(ks.endorsement_public_key(), Some(p1.clone()));
    assert!(ks.is_trusted(&p1));
}

#[test]
fn keystore_signs_and_verifies() {
    let (s1, p1) = keys(3);
    let mut ks = KeyStore::new();
    assert!(ks.endorse(b"data").is_none());
    ks.set_endorsement_credentials(&s1, Some(&p1)).unwrap();
    let sig = ks.endorse(b"data").unwrap();
    assert_eq!(sig, sign(3, b"data"));
    assert_eq!(ks.verify(b"data", &sig), Some(p1.clone()));
    assert_eq!(ks.verify(b"other", &sig), None);
}

#[test]
fn keystore_entries_round_trip() {
    let (_s1, p1) = keys(4);
    let (_s2, p2) = keys(5);
    let mut ks = KeyStore::new();
    ks.add_trusted_public_key_with_role(&p1, "owner").unwrap();
    ks.add_trusted_public_key(&p2).unwrap();
    let entries = ks.to_entries();
    assert_eq!(entries.len(), 2);
    assert_eq!(entries[0].pubkey, base64_encode(&p1));
    assert_eq!(entries[0].role, Some("owner".to_string()));
    let back = KeyStore::from_entries(&entries).unwrap();
    assert_eq!(back.get_trusted_public_keys(), vec![p1.clone(), p2.clone()]);
    assert_eq!(back.get_role(&p1), Some("owner"));
    let bad = vec![KeyEntry { pubkey: "%%".to_string(), role: None }];
    assert_eq!(KeyStore::from_entries(&bad).err(), Some(SecError::InvalidBase64));
    let short = vec![KeyEntry { pubkey: base64_encode(&[1, 2]), role: None }];
    assert_eq!(KeyStore::from_entries(&short).err(), Some(SecError::InvalidKeyLength));
}

// ---------------------------------------------------------------------------
// policy
// ---------------------------------------------------------------------------

#[test]
fn policy_denies_first_and_by_default() {
    let (_s1, p1) = keys(6);
    let (_s2, p2) = keys(7);
    let mut ks = KeyStore::new();
    ks.add_trusted_public_key_with_role(&p1, "editor").unwrap();
    ks.add_trusted_public_key(&p2).unwrap();
    let mut policy = PolicyEngine::new();
    assert!(!policy.allows(&ks, &p1, "bob_1"));
    policy.add_rule(None, Some("editor".to_string()), "bob_*".to_string(), RuleEffect::Allow).unwrap();
    policy.add_rule(Some(p2.clone()), None, "*".to_string(), RuleEffect::Allow).unwrap();
    assert!(policy.allows(&ks, &p1, "bob_1"));
    assert!(!policy.allows(&ks, &p1, "alice_1"));
    assert!(policy.allows(&ks, &p2, "alice_1"));
    policy.add_rule(None, None, "bob_secret".to_string(), RuleEffect::Deny).unwrap();
    assert!(!policy.allows(&ks, &p1, "bob_secret"));
    assert!(!policy.allows(&ks, &p2, "bob_secret"));
    assert_eq!(
        policy.add_rule(None, None, "a[".to_string(), RuleEffect::Allow),
        Err(SecError::InvalidGlob)
    );
}

#[test]
fn policy_rules_from_documents() {
    let (_s1, p1) = keys(8);
    let mut ks = KeyStore::new();
    ks.add_trusted_public_key(&p1).unwrap();
    let rules = vec![
        RawRule {
            allow: Some(RuleDef { key: None, role: None, objects: "*".to_string() }),
            deny: Some(RuleDef { key: Some(base64_encode(&p1)), role: None, objects: "x".to_string() }),
        },
    ];
    let policy = PolicyEngine::from_raw_rules(&rules).unwrap();
    assert_eq!(policy.rules.len(), 2);
    assert!(policy.allows(&ks, &p1, "y"));
    assert!(!policy.allows(&ks, &p1, "x"));
    let bad = vec![RawRule {
        allow: Some(RuleDef { key: Some("%%".to_string()), role: None, objects: "*".to_string() }),
        deny: None,
    }];
    assert_eq!(PolicyEngine::from_raw_rules(&bad).err(), Some(SecError::InvalidBase64));
    let mut partial = PolicyEngine::new();
    let mixed = vec![
        RawRule { allow: Some(RuleDef { key: None, role: None, objects: "a".to_string() }), deny: None },
        RawRule { allow: Some(RuleDef { key: None, role: None, objects: "b[".to_string() }), deny: None },
    ];
    assert_eq!(partial.parse_rules(&mixed), Err(SecError::InvalidGlob));
    assert_eq!(partial.rules.len(), 1);
}

#[test]
fn policy_config_round_trip() {
    let (_s1, p1) = keys(9);
    let mut policy = PolicyEngine::new();
    policy.add_rule(Some(p1.clone()), Some("owner".to_string()), "a*".to_string(), RuleEffect::Deny).unwrap();
    policy.allow_all();
    let defs = policy.to_config();
    assert_eq!(defs.len(), 2);
    assert_eq!(defs[0].key, Some(base64_encode(&p1)));
    assert_eq!(defs[0].effect, RuleEffect::Deny);
    assert_eq!(defs[1].objects, "*");
    let back = PolicyEngine::from_config(&defs).unwrap();
    assert_eq!(back.rules.len(), 2);
    assert_eq!(back.rules[0].pubkey(), &Some(p1.clone()));
    assert_eq!(back.rules[0].pattern(), "a*");
    assert_eq!(back.rules[1].effect(), RuleEffect::Allow);
}

#[test]
fn rule_matches_key_role_and_pattern() {
    let (_s1, p1) = keys(10);
    let mut ks = KeyStore::new();
    ks.add_trusted_public_key_with_role(&p1, "owner").unwrap();
    let rule = Rule::new(None, Some("owner".to_string()), "doc_*".to_string(), RuleEffect::Allow).unwrap();
    assert!(rule.matches(&ks, &p1, "doc_1"));
    assert!(!rule.matches(&ks, &p1, "img_1"));
    let (_s2, p2) = keys(11);
    assert!(!rule.matches(&ks, &p2, "doc_1"));
}

// ---------------------------------------------------------------------------
// white- and blacklists
// ---------------------------------------------------------------------------

#[test]
fn delta_filter_lists() {
    let id = DeltaId::from("1-abc.delta").unwrap();
    let mut df = DeltaFilter::new();
    assert_eq!(df.add_to_whitelist(&id), Ok(true));
    assert_eq!(df.add_to_whitelist(&id), Ok(false));
    assert!(df.is_whitelisted(&id));
    assert!(!df.is_blacklisted(&id));
    assert_eq!(df.get_whitelist(), vec!["1-abc.delta".to_string()]);
    let other = DeltaId::from("2-bb.delta").unwrap();
    assert_eq!(df.add_to_whitelist(&other), Ok(true));
    assert_eq!(df.add_to_whitelist(&id), Ok(false));
    assert_eq!(df.get_whitelist(), vec!["1-abc.delta".to_string(), "2-bb.delta".to_string()]);
    assert!(df.get_blacklist().is_empty());
    let back = DeltaFilter::from_config(&df.get_whitelist(), &df.get_blacklist()).unwrap();
    assert!(back.is_whitelisted(&id));
    assert_eq!(
        DeltaFilter::from_config(&vec!["bogus".to_string()], &Vec::new()).err(),
        Some(SecError::InvalidDeltaId)
    );
}

// ---------------------------------------------------------------------------
// trust layer decisions
// ---------------------------------------------------------------------------

#[test]
fn screen_read_decisions() {
    let mut ta = TrustAdapter::new_single((), KeyStore::new(), allow_all());
    let data = b"payload".to_vec();
    match ta.screen_read("pack", 1, 3, data.clone()) {
        ReadScreen::Done(r) => assert_eq!(r, Ok(b"ayl".to_vec())),
        _ => panic!("expected a decided read"),
    }
    match ta.screen_read("x.delta", 0, 0, data.clone()) {
        ReadScreen::Done(r) => assert_eq!(r, Err(SecError::InvalidDelta)),
        _ => panic!("expected a decided read"),
    }
    match ta.screen_read("1-abc.delta", 0, 0, data.clone()) {
        ReadScreen::Endorsements(id, d) => {
            assert_eq!(id.key(), "1-abc.delta");
            assert_eq!(d, data);
        }
        _ => panic!("expected an endorsement check"),
    }
    let id = DeltaId::from("1-abc.delta").unwrap();
    ta.add_delta_to_whitelist(&id).unwrap();
    match ta.screen_read("1-abc.delta", 0, 0, data.clone()) {
        ReadScreen::Done(r) => assert_eq!(r, Ok(data.clone())),
        _ => panic!("expected a decided read"),
    }
    ta.add_delta_to_blacklist(&id).unwrap();
    match ta.screen_read("1-abc.delta", 0, 0, data.clone()) {
        ReadScreen::Done(r) => assert_eq!(r, Err(SecError::Blacklisted)),
        _ => panic!("expected a decided read"),
    }
    let disabled = TrustAdapter::new_disabled((), KeyStore::new(), allow_all());
    match disabled.screen_read("2-abc.delta", 0, 0, data.clone()) {
        ReadScreen::Done(r) => assert_eq!(r, Ok(data.clone())),
        _ => panic!("expected a decided read"),
    }
}

#[test]
fn fetch_endorsements_classifies_records() {
    let (_s1, p1) = keys(12);
    let (_s2, p2) = keys(13);
    let mut ks = KeyStore::new();
    ks.add_trusted_public_key(&p1).unwrap();
    let ta = TrustAdapter::new_single((), ks, allow_all());
    let id = DeltaId::from("1-abc.delta").unwrap();
    let good = record(&sign(12, b"abc"));
    let untrusted = record(&sign(13, b"abc"));
    let items = vec![
        (EndorsementKey::new(id.copy(), p1.clone()), Ok(good.clone())),
        (EndorsementKey::new(id.copy(), p2.clone()), Ok(untrusted)),
    ];
    let f = ta.fetch_endorsements(&id, &items).unwrap();
    assert_eq!(f.valid(), &vec![p1.clone()]);
    assert_eq!(f.invalid(), &vec![p2.clone()]);
    assert_eq!(f.valid_count(), 1);

    let wrong_message = vec![(EndorsementKey::new(id.copy(), p1.clone()), Ok(record(&sign(12, b"other"))))];
    assert_eq!(ta.fetch_endorsements(&id, &wrong_message).unwrap().invalid(), &vec![p1.clone()]);

    let mut old = good.clone();
    old.version = 2;
    let bad_format = vec![(EndorsementKey::new(id.copy(), p1.clone()), Ok(old))];
    assert_eq!(ta.fetch_endorsements(&id, &bad_format).err(), Some(SecError::UnsupportedEndorsementFormat));
    let mut b64 = good.clone();
    b64.signature = "%%%".to_string();
    let bad_b64 = vec![(EndorsementKey::new(id.copy(), p1.clone()), Ok(b64))];
    assert_eq!(ta.fetch_endorsements(&id, &bad_b64).err(), Some(SecError::InvalidBase64));
    let short = vec![(EndorsementKey::new(id.copy(), p1.clone()), Ok(record(&[1, 2, 3])))];
    assert_eq!(ta.fetch_endorsements(&id, &short).err(), Some(SecError::InvalidSignatureLength));
    let noise = vec![
        (EndorsementKey::new(id.copy(), p2.clone()), Err(SecError::InvalidRecord)),
        (EndorsementKey::new(id.copy(), vec![1, 2, 3]), Ok(record(&[1, 2, 3]))),
        (EndorsementKey::new(id.copy(), p1.clone()), Ok(good.clone())),
    ];
    let f = ta.fetch_endorsements(&id, &noise).unwrap();
    assert_eq!(f.valid(), &vec![p1.clone()]);
    assert_eq!(f.invalid(), &vec![p2.clone(), vec![1, 2, 3]]);
    let missing = vec![(EndorsementKey::new(id.copy(), p1.clone()), Err(SecError::Storage("gone".to_string())))];
    assert_eq!(ta.fetch_endorsements(&id, &missing).err(), Some(SecError::Storage("gone".to_string())));
}

#[test]
fn check_endorsement_record_format() {
    let r = record(&[0u8; 64]);
    assert_eq!(check_endorsement_record(r.clone()), Ok(r.clone()));
    let mut other = r.clone();
    other.algorithm = "RSA".to_string();
    assert_eq!(check_endorsement_record(other), Err(SecError::UnsupportedEndorsementFormat));
}

fn fetched(keys_: &[Vec<u8>]) -> EndorsementFetchResult {
    let mut f = EndorsementFetchResult::new();
    for k in keys_ {
        f.insert_valid(k);
    }
    f
}

#[test]
fn majority_of_five_needs_three() {
    let ps: Vec<Vec<u8>> = (60..65u8).map(|s| keys(s).1).collect();
    let mut ks = KeyStore::new();
    for p in &ps {
        ks.add_trusted_public_key(p).unwrap();
    }
    let ta = TrustAdapter::new_majority((), ks, allow_all());
    let data = delta_with(&["doc"]);
    assert_eq!(ta.admit_delta(&fetched(&ps[0..2]), data.clone()), Err(SecError::InsufficientEndorsements));
    assert_eq!(ta.admit_delta(&fetched(&ps[0..3]), data.clone()), Ok(data.clone()));
    let empty = TrustAdapter::new_majority((), KeyStore::new(), allow_all());
    assert_eq!(empty.admit_delta(&fetched(&[]), data.clone()), Err(SecError::InsufficientEndorsements));
}

#[test]
fn single_mode_needs_an_authorized_endorser() {
    let (_s1, p1) = keys(20);
    let (_s2, p2) = keys(21);
    let mut ks = KeyStore::new();
    ks.add_trusted_public_key_with_role(&p1, "owner").unwrap();
    ks.add_trusted_public_key_with_role(&p2, "editor").unwrap();
    let mut policy = PolicyEngine::new();
    policy.add_rule(None, Some("owner".to_string()), "*".to_string(), RuleEffect::Allow).unwrap();
    policy.add_rule(None, Some("editor".to_string()), "bob_*".to_string(), RuleEffect::Allow).unwrap();
    let ta = TrustAdapter::new_single((), ks, policy);
    let data = delta_with(&["bob_1", "alice_1"]);
    assert_eq!(ta.admit_delta(&fetched(&[]), data.clone()), Err(SecError::InsufficientEndorsements));
    assert_eq!(ta.admit_delta(&fetched(&[p2.clone()]), data.clone()), Err(SecError::NotAllowedByPolicy));
    assert_eq!(ta.admit_delta(&fetched(&[p2.clone(), p1.clone()]), data.clone()), Ok(data.clone()));
    let bobs = delta_with(&["bob_1"]);
    assert_eq!(ta.admit_delta(&fetched(&[p2.clone()]), bobs.clone()), Ok(bobs.clone()));
}

#[test]
fn endorse_writes_a_record_that_counts() {
    let (s1, p1) = keys(30);
    let mut ks = KeyStore::new();
    ks.set_endorsement_credentials(&s1, Some(&p1)).unwrap();
    let ta = TrustAdapter::new_single((), ks, allow_all());
    let id = DeltaId::from("5-beef.delta").unwrap();
    let target = ta.endorsement_target(&id).unwrap();
    assert_eq!(target.pubkey(), &p1);
    let rec = ta.endorse(&id, None).unwrap().unwrap();
    assert_eq!(rec.version, 1);
    assert_eq!(rec.algorithm, "Ed25519");
    assert_eq!(rec.signature, base64_encode(&sign(30, b"beef")));
    assert_eq!(rec.signature.len(), 88);
    let items = vec![(target.copy(), Ok(rec.clone()))];
    assert_eq!(ta.fetch_endorsements(&id, &items).unwrap().valid(), &vec![p1.clone()]);
    assert_eq!(ta.endorse(&id, Some(rec.clone())), Ok(None));
    let mut broken = rec.clone();
    broken.signature = "***".to_string();
    assert_eq!(ta.endorse(&id, Some(broken)), Err(SecError::InvalidBase64));
    let mut stale = rec.clone();
    stale.version = 9;
    assert_eq!(ta.endorse(&id, Some(stale)), Ok(Some(rec.clone())));
    let nokey = TrustAdapter::new_single((), KeyStore::new(), allow_all());
    assert_eq!(nokey.endorse(&id, None), Err(SecError::MissingEndorsementKey));
    assert!(nokey.endorsement_target(&id).is_err());
}

#[test]
fn trust_adapter_settings() {
    let mut ta = TrustAdapter::new_single(5u8, KeyStore::new(), allow_all());
    assert_eq!(ta.get_endorsement_mode(), EndorsementMode::SINGLE);
    ta.set_endorsement_mode(EndorsementMode::MAJORITY);
    assert_eq!(ta.get_endorsement_mode(), EndorsementMode::MAJORITY);
    assert_eq!(*ta.get_inner(), 5u8);
    let (_s, p) = keys(31);
    ta.get_keystore_mut().add_trusted_public_key(&p).unwrap();
    assert_eq!(ta.get_keystore().trusted_key_count(), 1);
    ta.set_keystore(KeyStore::new());
    assert_eq!(ta.get_keystore().trusted_key_count(), 0);
    ta.set_policy(PolicyEngine::new());
    assert_eq!(ta.get_policy().rules.len(), 0);
}

// ---------------------------------------------------------------------------
// encryption layer
// ---------------------------------------------------------------------------

#[test]
fn encryption_round_trip_and_nonce() {
    let ea = EncryptionAdapter::new((), [9u8; 32]);
    let blob = ea.encrypt(b"plain text").unwrap();
    assert_eq!(blob.alg, "aes-256-gcm");
    assert_eq!(blob.nonce, Sha256::digest(b"plain text")[..12].to_vec());
    assert_eq!(EncryptionAdapter::<()>::derive_nonce(b"plain text"), blob.nonce);
    assert_ne!(blob.data, b"plain text".to_vec());
    assert_eq!(ea.decrypt(&blob), Ok(b"plain text".to_vec()));
    assert_eq!(ea.open_object(&blob, 6, 4), Ok(b"text".to_vec()));
    assert_eq!(ea.open_object(&blob, 6, 5), Err(SecError::InvalidSlice));
    let other = EncryptionAdapter::new((), [8u8; 32]);
    assert_eq!(other.decrypt(&blob), Err(SecError::DecryptionFailed));
    let foreign = EncryptedBlob { alg: "rot13".to_string(), nonce: vec![], data: vec![] };
    assert_eq!(ea.decrypt(&foreign), Err(SecError::UnsupportedAlgorithm("rot13".to_string())));
}

#[test]
fn encryption_is_deterministic() {
    let ea = EncryptionAdapter::new((), [9u8; 32]);
    let first = ea.encrypt(b"same").unwrap();
    let second = ea.encrypt(b"same").unwrap();
    assert_eq!(first.alg, second.alg);
    assert_eq!(first.nonce, second.nonce);
    assert_eq!(first.data, second.data);
    let third = ea.encrypt(b"other").unwrap();
    assert_ne!(first.data, third.data);
    assert_eq!(ea.open_object(&first, 0, 0), Ok(b"same".to_vec()));
    assert_eq!(ea.open_object(&first, 1, 2), Ok(b"am".to_vec()));
}

// ---------------------------------------------------------------------------
// signing layer
// ---------------------------------------------------------------------------

#[test]
fn signing_layer_write_checks() {
    let (s1, p1) = keys(40);
    let mut deny = PolicyEngine::new();
    deny.add_rule(None, None, "x*".to_string(), RuleEffect::Deny).unwrap();
    deny.allow_all();
    let lenient = SecureAdapter::new((), KeyStore::new(), deny).strict_write(true);
    assert_eq!(lenient.check_write("1-a.delta", &delta_with(&["y"])), Err(SecError::MissingSigningKey));
    assert_eq!(lenient.check_write("pack", &delta_with(&["x"])), Ok(()));
    let mut ks = KeyStore::new();
    ks.set_endorsement_credentials(&s1, Some(&p1)).unwrap();
    let mut deny2 = PolicyEngine::new();
    deny2.add_rule(None, None, "x*".to_string(), RuleEffect::Deny).unwrap();
    deny2.allow_all();
    let strict = SecureAdapter::new((), ks, deny2).strict_write(true);
    assert_eq!(strict.check_write("1-a.delta", &delta_with(&["y", "x1", "x2"])), Err(SecError::WriteDenied("x1".to_string())));
    assert_eq!(strict.check_write("1-a.delta", &delta_with(&["y"])), Ok(()));
}

#[test]
fn signing_layer_signs_and_checks_reads() {
    let (s1, p1) = keys(41);
    let mut ks = KeyStore::new();
    ks.set_endorsement_credentials(&s1, Some(&p1)).unwrap();
    let sa = SecureAdapter::new((), ks, allow_all());
    let data = delta_with(&["doc"]);
    assert!(sa.signature_for("pack", &data).is_none());
    let (name, file) = sa.signature_for("1-a.delta", &data).unwrap();
    assert_eq!(name, "1-a.delta.sig");
    assert_eq!(file.alg, "ed25519");
    assert_eq!(file.pubkey, base64_encode(&p1));
    let sig = decode_signature_file(&file).unwrap();
    assert_eq!(sig, sign(41, &data));
    assert_eq!(sa.signed_read("1-a.delta", 0, 0, data.clone(), Some(sig.clone())), Ok(data.clone()));
    assert_eq!(sa.signed_read("1-a.delta", 0, 0, data.clone(), None), Err(SecError::MissingSignature));
    assert_eq!(
        sa.signed_read("1-a.delta", 0, 0, b"tampered".to_vec(), Some(sig.clone())),
        Err(SecError::InvalidSignature)
    );
    assert_eq!(sa.signed_read("pack", 2, 2, b"xy".to_vec(), None), Ok(b"xy".to_vec()));
    let bad = SignatureFile { alg: "ed25519".to_string(), pubkey: "%%".to_string(), sig: file.sig.clone() };
    assert_eq!(decode_signature_file(&bad), Err(SecError::InvalidBase64));

    let (s2, p2) = keys(42);
    let mut ks2 = KeyStore::new();
    ks2.set_endorsement_credentials(&s2, Some(&p2)).unwrap();
    let mut deny = PolicyEngine::new();
    deny.add_rule(None, None, "doc".to_string(), RuleEffect::Deny).unwrap();
    let strict = SecureAdapter::new((), ks2, deny);
    let sig2 = sign(42, &data);
    assert_eq!(
        strict.signed_read("1-a.delta", 0, 0, data.clone(), Some(sig2.clone())),
        Err(SecError::PolicyViolation("doc".to_string()))
    );
    let lenient = strict.strict_read(false);
    assert_eq!(lenient.signed_read("1-a.delta", 0, 0, data.clone(), Some(sig2)), Ok(Vec::new()));
    assert_eq!(lenient.signed_read("1-a.delta", 0, 0, data.clone(), None), Ok(data.clone()));
}
