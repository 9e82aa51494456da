//! The trust layer: which deltas may contribute to the reconstructed state.
//!
//! A delta is a proposal. It becomes visible when it is not blacklisted and is
//! whitelisted, or when the endorsement mode is disabled, or when enough
//! trusted keys endorse it and enough of those endorsers are authorized by the
//! policy for every object the delta creates or modifies.
use vstd::prelude::*;

use crate::bytes::bytes_to_vec;
use crate::crypto::{
    base64_decode, base64_decoding, base64_encode, base64_encoding, ed25519_key_valid, ed25519_public_key,
    ed25519_signature, ed25519_verifies, ed25519_verify, ed25519_check_public,
};
use crate::deltafilter::DeltaFilter;
use crate::deltaid::{
    delta_extension, delta_id_of, delta_key_text, delta_text_parse_defined, is_word_text, lemma_delta_key_parses, DeltaId,
};
use crate::endorsement::{endorsement_name_defined, endorsement_name_parse, EndorsementKey};
use crate::error::SecError;
use crate::keystore::KeyStore;
use crate::policy::engine::{policy_allows, PolicyEngine};
use crate::utils::{
    bytes_result_view, created_and_modified_ids, ends_with_delta, extract_created_and_modified_object_ids,
    is_delta_key_name, object_slice, read_slice,
};
use crate::policy::rule::RuleView;

verus! {

broadcast use vstd::seq_lib::group_seq_properties;

/// How many endorsements a delta needs.
#[allow(non_camel_case_types)]
#[derive(Clone, Copy, Debug, PartialEq, Eq, Structural)]
pub enum EndorsementMode {
    /// Every delta is accepted; no endorsement is checked.
    DISABLED,
    /// At least one trusted and authorized endorsement.
    SINGLE,
    /// More than half of the trusted keys endorse, and are authorized.
    MAJORITY,
}

/// The content of an endorsement file.
#[derive(Clone, Debug, PartialEq, Eq)]
pub struct EndorsementRecord {
    pub version: u32,
    pub algorithm: String,
    pub signature: String,
}

/// The name of the only supported endorsement algorithm.
pub open spec fn ed25519_name() -> Seq<char> {
    seq!['E', 'd', '2', '5', '5', '1', '9']
}

/// The view of a record: version, algorithm, signature text.
pub open spec fn record_view(r: EndorsementRecord) -> (u32, Seq<char>, Seq<char>) {
    (r.version, r.algorithm@, r.signature@)
}

/// The message an endorsement signs: the UTF-8 bytes of the delta's digest.
pub open spec fn endorsement_message(delta: (u32, Seq<char>)) -> Seq<u8> {
    vstd::utf8::encode_utf8(delta.1)
}

/// What one endorsement file says about its public key: whether it is a valid
/// endorsement, or the error that reading it gives. A key that is not trusted
/// never counts, and its record is not looked at.
pub open spec fn endorsement_verdict(
    trusted: Set<Seq<u8>>,
    delta: (u32, Seq<char>),
    pubkey: Seq<u8>,
    record: (u32, Seq<char>, Seq<char>),
) -> Result<bool, SecError> {
    if !trusted.contains(pubkey) {
        Ok(false)
    } else if !(record.0 == 1 && record.1 == ed25519_name()) {
        Err(SecError::UnsupportedEndorsementFormat)
    } else {
        match base64_decoding(record.2) {
            None => Err(SecError::InvalidBase64),
            Some(sig) => if sig.len() != 64 {
                Err(SecError::InvalidSignatureLength)
            } else if !ed25519_key_valid(pubkey) {
                Err(SecError::InvalidEndorsementPublicKey)
            } else {
                Ok(ed25519_verifies(pubkey, endorsement_message(delta), sig))
            },
        }
    }
}

/// Classifying the endorsement files of a delta in order: the public keys of
/// valid and of invalid endorsements, or the first error. Only endorsements by
/// trusted keys count: the file of a key that is not trusted is set aside as
/// invalid whatever it holds, even when it could not be read, so that it never
/// changes the outcome.
pub open spec fn classify_endorsements(
    trusted: Set<Seq<u8>>,
    delta: (u32, Seq<char>),
    items: Seq<(Seq<u8>, Result<(u32, Seq<char>, Seq<char>), SecError>)>,
) -> Result<(Set<Seq<u8>>, Set<Seq<u8>>), SecError>
    decreases items.len(),
{
    if items.len() == 0 {
        Ok((Set::empty(), Set::empty()))
    } else {
        match classify_endorsements(trusted, delta, items.drop_last()) {
            Err(e) => Err(e),
            Ok((valid, invalid)) => if !trusted.contains(items.last().0) {
                Ok((valid, invalid.insert(items.last().0)))
            } else {
                match items.last().1 {
                    Err(e) => Err(e),
                    Ok(record) => match endorsement_verdict(trusted, delta, items.last().0, record) {
                        Err(e) => Err(e),
                        Ok(true) => Ok((valid.insert(items.last().0), invalid)),
                        Ok(false) => Ok((valid, invalid.insert(items.last().0))),
                    },
                }
            },
        }
    }
}

/// Whether `count` endorsements suffice under `mode` with `trusted` trusted keys.
pub open spec fn endorsements_suffice(mode: EndorsementMode, count: nat, trusted: nat) -> bool {
    match mode {
        EndorsementMode::DISABLED => true,
        EndorsementMode::SINGLE => count > 0,
        EndorsementMode::MAJORITY => trusted > 0 && 2 * count > trusted,
    }
}

/// The endorsers that the policy allows to change every one of `ids`.
pub open spec fn authorized_endorsers(
    valid: Set<Seq<u8>>,
    rules: Seq<RuleView>,
    roles: Map<Seq<u8>, Seq<char>>,
    ids: Seq<Seq<char>>,
) -> Set<Seq<u8>> {
    valid.filter(|e: Seq<u8>| forall|i: int| 0 <= i < ids.len() ==> policy_allows(rules, roles, e, #[trigger] ids[i]))
}

/// Whether a delta with content `data`, endorsed validly by `valid`, is
/// admitted: enough endorsements, and enough of them authorized for every
/// object the delta creates or modifies.
pub open spec fn admission(
    mode: EndorsementMode,
    trusted: nat,
    valid: Set<Seq<u8>>,
    rules: Seq<RuleView>,
    roles: Map<Seq<u8>, Seq<char>>,
    data: Seq<u8>,
) -> Result<Seq<u8>, SecError> {
    if !endorsements_suffice(mode, valid.len(), trusted) {
        Err(SecError::InsufficientEndorsements)
    } else if !endorsements_suffice(
        mode,
        authorized_endorsers(valid, rules, roles, created_and_modified_ids(data)).len(),
        trusted,
    ) {
        Err(SecError::NotAllowedByPolicy)
    } else {
        Ok(data)
    }
}

/// The public keys with valid and with invalid endorsements of a delta.
pub struct EndorsementFetchResult {
    valid: Vec<Vec<u8>>,
    invalid: Vec<Vec<u8>>,
}

impl EndorsementFetchResult {
    /// The public keys with a valid endorsement, in order.
    pub closed spec fn valid_list(&self) -> Seq<Seq<u8>> {
        self.valid@.map_values(|k: Vec<u8>| k@)
    }

    /// The public keys with an invalid endorsement, in order.
    pub closed spec fn invalid_list(&self) -> Seq<Seq<u8>> {
        self.invalid@.map_values(|k: Vec<u8>| k@)
    }

    /// The set of public keys with a valid endorsement.
    pub open spec fn valid_set(&self) -> Set<Seq<u8>> {
        self.valid_list().to_set()
    }

    /// The set of public keys with an invalid endorsement.
    pub open spec fn invalid_set(&self) -> Set<Seq<u8>> {
        self.invalid_list().to_set()
    }

    /// Each key is listed once.
    pub closed spec fn wf(&self) -> bool {
        self.valid_list().no_duplicates() && self.invalid_list().no_duplicates()
    }

    /// No endorsement.
    pub fn new() -> (r: EndorsementFetchResult)
        ensures
            r.wf(),
            r.valid_list() == Seq::<Seq<u8>>::empty(),
            r.invalid_list() == Seq::<Seq<u8>>::empty(),
            r.valid_set() == Set::<Seq<u8>>::empty(),
            r.invalid_set() == Set::<Seq<u8>>::empty(),
    {
        let r = EndorsementFetchResult { valid: Vec::new(), invalid: Vec::new() };
        assert(r.valid_list() =~= Seq::<Seq<u8>>::empty());
        assert(r.invalid_list() =~= Seq::<Seq<u8>>::empty());
        assert(r.valid_set() =~= Set::<Seq<u8>>::empty());
        assert(r.invalid_set() =~= Set::<Seq<u8>>::empty());
        r
    }

    /// The public keys with a valid endorsement.
    pub fn valid(&self) -> (r: &Vec<Vec<u8>>)
        ensures
            r@.map_values(|k: Vec<u8>| k@) == self.valid_list(),
    {
        &self.valid
    }

    /// The public keys with an invalid endorsement.
    pub fn invalid(&self) -> (r: &Vec<Vec<u8>>)
        ensures
            r@.map_values(|k: Vec<u8>| k@) == self.invalid_list(),
    {
        &self.invalid
    }

    /// The number of public keys with a valid endorsement.
    pub fn valid_count(&self) -> (r: usize)
        requires
            self.wf(),
        ensures
            r == self.valid_set().len(),
    {
        proof {
            self.valid_list().unique_seq_to_set();
        }
        self.valid.len()
    }

    /// Whether `key` has a valid endorsement.
    pub fn is_valid(&self, key: &[u8]) -> (r: bool)
        ensures
            r == self.valid_set().contains(key@),
    {
        let mut i: usize = 0;
        while i < self.valid.len()
            invariant
                i <= self.valid@.len(),
                forall|j: int| 0 <= j < i ==> self.valid_list()[j] != key@,
            decreases self.valid@.len() - i,
        {
            if crate::bytes::bytes_eq(self.valid[i].as_slice(), key) {
                assert(self.valid_list()[i as int] == key@);
                return true;
            }
            i = i + 1;
        }
        false
    }

    fn insert_into(list: &mut Vec<Vec<u8>>, key: &[u8])
        requires
            old(list)@.map_values(|k: Vec<u8>| k@).no_duplicates(),
        ensures
            final(list)@.map_values(|k: Vec<u8>| k@).no_duplicates(),
            final(list)@.map_values(|k: Vec<u8>| k@).to_set() == old(list)@.map_values(|k: Vec<u8>| k@).to_set().insert(key@),
    {
        let ghost before = list@.map_values(|k: Vec<u8>| k@);
        let mut i: usize = 0;
        while i < list.len()
            invariant
                before == list@.map_values(|k: Vec<u8>| k@),
                before == old(list)@.map_values(|k: Vec<u8>| k@),
                list@ == old(list)@,
                before.no_duplicates(),
                i <= list@.len(),
                forall|j: int| 0 <= j < i ==> before[j] != key@,
            decreases list@.len() - i,
        {
            if crate::bytes::bytes_eq(list[i].as_slice(), key) {
                assert(before[i as int] == key@);
                assert(before.to_set() =~= before.to_set().insert(key@));
                return;
            }
            i = i + 1;
        }
        let ghost old_list = list@;
        list.push(bytes_to_vec(key));
        proof {
            old_list.lemma_push_map_commute(|k: Vec<u8>| k@, list@.last());
            before.lemma_push_to_set_commute(key@);
        }
    }

    /// Records a valid endorsement by `key`.
    pub fn insert_valid(&mut self, key: &[u8])
        requires
            old(self).wf(),
        ensures
            final(self).wf(),
            final(self).valid_set() == old(self).valid_set().insert(key@),
            final(self).invalid_set() == old(self).invalid_set(),
    {
        Self::insert_into(&mut self.valid, key);
    }

    /// Records an invalid endorsement by `key`.
    pub fn insert_invalid(&mut self, key: &[u8])
        requires
            old(self).wf(),
        ensures
            final(self).wf(),
            final(self).invalid_set() == old(self).invalid_set().insert(key@),
            final(self).valid_set() == old(self).valid_set(),
    {
        Self::insert_into(&mut self.invalid, key);
    }
}


/// The view of an optional endorsement record read from storage.
pub open spec fn fetched_view(item: (EndorsementKey, Result<EndorsementRecord, SecError>)) -> (Seq<u8>, Result<(u32, Seq<char>, Seq<char>), SecError>) {
    (item.0@.1, match item.1 {
        Ok(r) => Ok(record_view(r)),
        Err(e) => Err(e),
    })
}

/// The views of endorsement files with what reading each gave.
pub open spec fn fetched_views(
    items: Seq<(EndorsementKey, Result<EndorsementRecord, SecError>)>,
) -> Seq<(Seq<u8>, Result<(u32, Seq<char>, Seq<char>), SecError>)> {
    items.map_values(|it: (EndorsementKey, Result<EndorsementRecord, SecError>)| fetched_view(it))
}

/// The view of a classification: the sets of valid and invalid endorsers.
pub open spec fn fetch_result_view(r: Result<EndorsementFetchResult, SecError>) -> Result<(Set<Seq<u8>>, Set<Seq<u8>>), SecError> {
    match r {
        Ok(f) => Ok((f.valid_set(), f.invalid_set())),
        Err(e) => Err(e),
    }
}

/// Once a prefix of the endorsement files fails, the whole classification
/// fails with the same error.
proof fn lemma_classify_error_persists(
    trusted: Set<Seq<u8>>,
    delta: (u32, Seq<char>),
    items: Seq<(Seq<u8>, Result<(u32, Seq<char>, Seq<char>), SecError>)>,
    n: int,
)
    requires
        0 <= n <= items.len(),
        classify_endorsements(trusted, delta, items.take(n)) is Err,
    ensures
        classify_endorsements(trusted, delta, items) == classify_endorsements(trusted, delta, items.take(n)),
    decreases items.len(),
{
    if n < items.len() {
        assert(items.drop_last().take(n) =~= items.take(n));
        lemma_classify_error_persists(trusted, delta, items.drop_last(), n);
    } else {
        assert(items.take(n) =~= items);
    }
}

/// Whether `s` names the supported algorithm.
fn is_ed25519_name(s: &String) -> (r: bool)
    ensures
        r == (s@ == ed25519_name()),
{
    let name = String::from_str("Ed25519");
    proof {
        reveal_strlit("Ed25519");
        assert(name@ =~= ed25519_name());
    }
    s.eq(&name)
}

/// Whether `count` endorsements suffice under `mode` with `trusted` trusted keys.
fn suffices(mode: EndorsementMode, count: usize, trusted: usize) -> (r: bool)
    ensures
        r == endorsements_suffice(mode, count as nat, trusted as nat),
{
    match mode {
        EndorsementMode::DISABLED => true,
        EndorsementMode::SINGLE => count > 0,
        EndorsementMode::MAJORITY => trusted > 0 && count > trusted / 2,
    }
}

/// Adding an endorser to a set adds it to the authorized endorsers exactly
/// when the policy allows it every object.
proof fn lemma_authorized_insert(
    valid: Set<Seq<u8>>,
    rules: Seq<RuleView>,
    roles: Map<Seq<u8>, Seq<char>>,
    ids: Seq<Seq<char>>,
    e: Seq<u8>,
)
    ensures
        authorized_endorsers(valid.insert(e), rules, roles, ids) == (if forall|i: int|
            0 <= i < ids.len() ==> policy_allows(rules, roles, e, #[trigger] ids[i]) {
            authorized_endorsers(valid, rules, roles, ids).insert(e)
        } else {
            authorized_endorsers(valid, rules, roles, ids)
        }),
{
    assert(authorized_endorsers(valid.insert(e), rules, roles, ids) =~= (if forall|i: int|
        0 <= i < ids.len() ==> policy_allows(rules, roles, e, #[trigger] ids[i]) {
        authorized_endorsers(valid, rules, roles, ids).insert(e)
    } else {
        authorized_endorsers(valid, rules, roles, ids)
    }));
}

/// The endorsements of `delta` named by `names`, in order: the names that parse
/// as endorsement file names of that delta.
pub open spec fn selected_endorsements(
    delta: (u32, Seq<char>),
    names: Seq<Seq<char>>,
) -> Seq<((u32, Seq<char>), Seq<u8>)>
    decreases names.len(),
{
    if names.len() == 0 {
        seq![]
    } else {
        let prev = selected_endorsements(delta, names.drop_last());
        match endorsement_name_parse(names.last()) {
            Some(k) => if k.0 == delta {
                prev.push(k)
            } else {
                prev
            },
            None => prev,
        }
    }
}

/// Picks, among the names of the endorsement files in storage, those that
/// endorse `delta_id`, in order.
pub fn select_endorsements(delta_id: &DeltaId, names: &Vec<String>) -> (r: Vec<EndorsementKey>)
    requires
        forall|i: int| 0 <= i < names@.len() ==> endorsement_name_defined((#[trigger] names@[i])@),
    ensures
        r@.map_values(|k: EndorsementKey| k@) == selected_endorsements(
            delta_id@,
            names@.map_values(|s: String| s@),
        ),
        forall|i: int| 0 <= i < r@.len() ==> (#[trigger] r@[i]).wf(),
        forall|i: int| 0 <= i < r@.len() ==> (#[trigger] r@[i])@.0 == delta_id@,
{
    let ghost nv = names@.map_values(|s: String| s@);
    let mut out: Vec<EndorsementKey> = Vec::new();
    let mut i: usize = 0;
    proof {
        assert(nv.take(0) =~= Seq::<Seq<char>>::empty());
        assert(out@.map_values(|k: EndorsementKey| k@) =~= Seq::<((u32, Seq<char>), Seq<u8>)>::empty());
    }
    while i < names.len()
        invariant
            nv == names@.map_values(|s: String| s@),
            forall|j: int| 0 <= j < names@.len() ==> endorsement_name_defined((#[trigger] names@[j])@),
            i <= names@.len(),
            out@.map_values(|k: EndorsementKey| k@) == selected_endorsements(delta_id@, nv.take(i as int)),
            forall|j: int| 0 <= j < out@.len() ==> (#[trigger] out@[j]).wf(),
        decreases names@.len() - i,
    {
        proof {
            assert(nv.take(i + 1).drop_last() =~= nv.take(i as int));
            assert(nv.take(i + 1).last() == names@[i as int]@);
        }
        let ghost before = out@;
        match EndorsementKey::from(names[i].as_str()) {
            Ok(key) => {
                if key.delta_id().same_as(delta_id) {
                    out.push(key);
                    proof {
                        before.lemma_push_map_commute(|k: EndorsementKey| k@, key);
                    }
                }
            },
            Err(_) => {},
        }
        i = i + 1;
    }
    proof {
        assert(nv.take(names@.len() as int) =~= nv);
        lemma_selected_endorsements_exact(delta_id@, nv);
        assert forall|i: int| 0 <= i < out@.len() implies (#[trigger] out@[i])@.0 == delta_id@ by {
            assert(out@.map_values(|k: EndorsementKey| k@)[i] == out@[i]@);
        }
    }
    out
}

/// Selecting endorsements keeps exactly the names that endorse the delta:
/// every selected endorsement names `delta` itself (its index and its
/// digest) and is what one of the names parses to, and every name that
/// parses to an endorsement of `delta` is selected; nothing else is.
pub proof fn lemma_selected_endorsements_exact(delta: (u32, Seq<char>), names: Seq<Seq<char>>)
    ensures
        selected_endorsements(delta, names).len() <= names.len(),
        forall|i: int|
            0 <= i < selected_endorsements(delta, names).len() ==> {
                &&& (#[trigger] selected_endorsements(delta, names)[i]).0 == delta
                &&& exists|j: int|
                    0 <= j < names.len() && endorsement_name_parse(#[trigger] names[j]) == Some(
                        selected_endorsements(delta, names)[i],
                    )
            },
        forall|j: int|
            0 <= j < names.len() && (endorsement_name_parse(#[trigger] names[j]) matches Some(k) && k.0 == delta)
                ==> selected_endorsements(delta, names).contains(endorsement_name_parse(names[j])->0),
    decreases names.len(),
{
    if names.len() > 0 {
        let pre = names.drop_last();
        lemma_selected_endorsements_exact(delta, pre);
        let prev = selected_endorsements(delta, pre);
        let sel = selected_endorsements(delta, names);
        assert forall|j: int| 0 <= j < pre.len() implies pre[j] == names[j] by {}
        assert forall|i: int| 0 <= i < sel.len() implies {
            &&& (#[trigger] sel[i]).0 == delta
            &&& exists|j: int| 0 <= j < names.len() && endorsement_name_parse(#[trigger] names[j]) == Some(sel[i])
        } by {
            if i < prev.len() {
                assert(sel[i] == prev[i]);
                let j = choose|j: int| 0 <= j < pre.len() && endorsement_name_parse(#[trigger] pre[j]) == Some(prev[i]);
                assert(names[j] == pre[j]);
            } else {
                assert(names[names.len() - 1] == names.last());
            }
        }
        assert forall|j: int|
            0 <= j < names.len() && (endorsement_name_parse(#[trigger] names[j]) matches Some(k) && k.0 == delta)
                implies sel.contains(endorsement_name_parse(names[j])->0) by {
            let k = endorsement_name_parse(names[j])->0;
            if j < pre.len() {
                assert(names[j] == pre[j]);
                let t = choose|t: int| 0 <= t < prev.len() && prev[t] == k;
                assert(sel[t] == prev[t]);
            } else {
                assert(names[j] == names.last());
                assert(sel[prev.len() as int] == k);
            }
        }
    }
}

/// The endorsement record that the endorsement key `secret` writes for `delta`.
pub open spec fn fresh_record(secret: Seq<u8>, delta: (u32, Seq<char>)) -> (u32, Seq<char>, Seq<char>) {
    (1, ed25519_name(), base64_encoding(ed25519_signature(secret, endorsement_message(delta))))
}

/// The view of an optional record.
pub open spec fn opt_record_view(r: Option<EndorsementRecord>) -> Option<(u32, Seq<char>, Seq<char>)> {
    match r {
        Some(rec) => Some(record_view(rec)),
        None => None,
    }
}

/// The view of what endorsing gives: the record to write, if any.
pub open spec fn endorse_view(r: Result<Option<EndorsementRecord>, SecError>) -> Result<Option<(u32, Seq<char>, Seq<char>)>, SecError> {
    match r {
        Ok(o) => Ok(opt_record_view(o)),
        Err(e) => Err(e),
    }
}

/// The record stored under our endorsement's name once endorsing gave `r`:
/// the fresh record when one was written, else the one already there.
pub open spec fn record_after_endorse(
    existing: Option<EndorsementRecord>,
    r: Result<Option<EndorsementRecord>, SecError>,
) -> Option<EndorsementRecord> {
    match r {
        Ok(Some(rec)) => Some(rec),
        _ => existing,
    }
}

/// What endorsing `delta` with the endorsement key `secret` does, given the
/// record already stored under the endorsement's name (`None` when there is
/// none or it could not be read): nothing when a well-formed stored record
/// already holds a valid signature of ours; otherwise a fresh record to write.
pub open spec fn endorsement_outcome(
    secret: Option<Seq<u8>>,
    delta: (u32, Seq<char>),
    existing: Option<(u32, Seq<char>, Seq<char>)>,
) -> Result<Option<(u32, Seq<char>, Seq<char>)>, SecError> {
    match secret {
        None => Err(SecError::MissingEndorsementKey),
        Some(sk) => match existing {
            Some(rec) => if rec.0 == 1 && rec.1 == ed25519_name() {
                match base64_decoding(rec.2) {
                    None => Err(SecError::InvalidBase64),
                    Some(sig) => if sig.len() == 64 && ed25519_verifies(
                        ed25519_public_key(sk),
                        endorsement_message(delta),
                        sig,
                    ) {
                        Ok(None)
                    } else {
                        Ok(Some(fresh_record(sk, delta)))
                    },
                }
            } else {
                Ok(Some(fresh_record(sk, delta)))
            },
            None => Ok(Some(fresh_record(sk, delta))),
        },
    }
}

/// Checks the format of an endorsement record read from storage: version 1 and
/// the algorithm `Ed25519`.
pub fn check_endorsement_record(record: EndorsementRecord) -> (r: Result<EndorsementRecord, SecError>)
    ensures
        r is Ok <==> (record.version == 1 && record.algorithm@ == ed25519_name()),
        r matches Ok(rec) ==> rec == record,
        r matches Err(e) ==> e == SecError::UnsupportedEndorsementFormat,
{
    if record.version != 1 || !is_ed25519_name(&record.algorithm) {
        return Err(SecError::UnsupportedEndorsementFormat);
    }
    Ok(record)
}

/// The view of the step that screens a read: the decided result, or the
/// delta whose endorsements must be checked, with the data carried along.
pub enum ScreenView {
    Decided(Result<Seq<u8>, SecError>),
    Pending((u32, Seq<char>), Seq<u8>),
}

/// How the trust layer screens a read of `length` bytes at `offset` of the
/// object `key` whose stored content is `data`: objects that are not deltas, and
/// partial reads, are sliced; a delta is refused when its name does not parse
/// or when it is blacklisted, and passes when it is whitelisted or the mode is
/// disabled; otherwise its endorsements decide.
pub open spec fn read_screen(
    mode: EndorsementMode,
    whitelist: Set<Seq<char>>,
    blacklist: Set<Seq<char>>,
    key: Seq<char>,
    offset: nat,
    length: nat,
    data: Seq<u8>,
) -> ScreenView {
    if !is_delta_key_name(key) || offset != 0 || length != 0 {
        ScreenView::Decided(object_slice(data, offset, length))
    } else {
        match delta_id_of(key) {
            None => ScreenView::Decided(Err(SecError::InvalidDelta)),
            Some(d) => if blacklist.contains(delta_key_text(d.0, d.1)) {
                ScreenView::Decided(Err(SecError::Blacklisted))
            } else if whitelist.contains(delta_key_text(d.0, d.1)) || mode == EndorsementMode::DISABLED {
                ScreenView::Decided(Ok(data))
            } else {
                ScreenView::Pending(d, data)
            },
        }
    }
}

/// The view of a screening step.
pub open spec fn screen_view(r: ReadScreen) -> ScreenView {
    match r {
        ReadScreen::Done(res) => ScreenView::Decided(bytes_result_view(res)),
        ReadScreen::Endorsements(id, data) => ScreenView::Pending(id@, data@),
    }
}

/// What reading an object through the trust layer needs next.
pub enum ReadScreen {
    /// The read is decided: the data, or why it is refused.
    Done(Result<Vec<u8>, SecError>),
    /// The delta needs its endorsements checked; the data is carried along.
    Endorsements(DeltaId, Vec<u8>),
}

/// The trust and governance layer around a storage adapter: the key store, the
/// authorization policy, the white- and blacklists, and the endorsement mode.
pub struct TrustAdapter<A> {
    inner: A,
    keystore: KeyStore,
    policy: PolicyEngine,
    delta_filter: DeltaFilter,
    endorsement_mode: EndorsementMode,
}

impl<A> TrustAdapter<A> {
    /// The key store.
    pub closed spec fn keystore_of(&self) -> KeyStore {
        self.keystore
    }

    /// The policy.
    pub closed spec fn policy_of(&self) -> PolicyEngine {
        self.policy
    }

    /// The white- and blacklists.
    pub closed spec fn filter_of(&self) -> DeltaFilter {
        self.delta_filter
    }

    /// The endorsement mode.
    pub closed spec fn mode_of(&self) -> EndorsementMode {
        self.endorsement_mode
    }

    /// The wrapped adapter.
    pub closed spec fn inner_of(&self) -> A {
        self.inner
    }

    /// The key store, the policy and the lists are well formed.
    pub open spec fn wf(&self) -> bool {
        &&& self.keystore_of().wf()
        &&& self.policy_of().wf()
        &&& self.filter_of().wf()
    }

    /// A trust layer with empty lists and the given mode.
    pub fn from_parts(
        inner: A,
        keystore: KeyStore,
        policy: PolicyEngine,
        delta_filter: DeltaFilter,
        endorsement_mode: EndorsementMode,
    ) -> (r: Self)
        ensures
            r.keystore_of() == keystore,
            r.policy_of() == policy,
            r.filter_of() == delta_filter,
            r.mode_of() == endorsement_mode,
            r.inner_of() == inner,
    {
        TrustAdapter { inner, keystore, policy, delta_filter, endorsement_mode }
    }

    /// A trust layer that asks for one trusted and authorized endorsement.
    pub fn new_single(inner: A, keystore: KeyStore, policy: PolicyEngine) -> (r: Self)
        requires
            keystore.wf(),
            policy.wf(),
        ensures
            r.wf(),
            r.keystore_of() == keystore,
            r.policy_of() == policy,
            r.filter_of().whitelist() == Set::<Seq<char>>::empty(),
            r.filter_of().blacklist() == Set::<Seq<char>>::empty(),
            r.mode_of() == EndorsementMode::SINGLE,
            r.inner_of() == inner,
    {
        TrustAdapter { inner, keystore, policy, delta_filter: DeltaFilter::new(), endorsement_mode: EndorsementMode::SINGLE }
    }

    /// A trust layer that asks for endorsements by more than half of the trusted keys.
    pub fn new_majority(inner: A, keystore: KeyStore, policy: PolicyEngine) -> (r: Self)
        requires
            keystore.wf(),
            policy.wf(),
        ensures
            r.wf(),
            r.keystore_of() == keystore,
            r.policy_of() == policy,
            r.filter_of().whitelist() == Set::<Seq<char>>::empty(),
            r.filter_of().blacklist() == Set::<Seq<char>>::empty(),
            r.mode_of() == EndorsementMode::MAJORITY,
            r.inner_of() == inner,
    {
        TrustAdapter { inner, keystore, policy, delta_filter: DeltaFilter::new(), endorsement_mode: EndorsementMode::MAJORITY }
    }

    /// A trust layer that accepts every delta that is not blacklisted.
    pub fn new_disabled(inner: A, keystore: KeyStore, policy: PolicyEngine) -> (r: Self)
        requires
            keystore.wf(),
            policy.wf(),
        ensures
            r.wf(),
            r.keystore_of() == keystore,
            r.policy_of() == policy,
            r.filter_of().whitelist() == Set::<Seq<char>>::empty(),
            r.filter_of().blacklist() == Set::<Seq<char>>::empty(),
            r.mode_of() == EndorsementMode::DISABLED,
            r.inner_of() == inner,
    {
        TrustAdapter { inner, keystore, policy, delta_filter: DeltaFilter::new(), endorsement_mode: EndorsementMode::DISABLED }
    }

    /// Sets the endorsement mode.
    pub fn set_endorsement_mode(&mut self, mode: EndorsementMode) -> (r: &Self)
        ensures
            final(self).mode_of() == mode,
            final(self).keystore_of() == old(self).keystore_of(),
            final(self).policy_of() == old(self).policy_of(),
            final(self).filter_of() == old(self).filter_of(),
            final(self).inner_of() == old(self).inner_of(),
            *r == *final(self),
    {
        self.endorsement_mode = mode;
        self
    }

    /// Replaces the key store.
    pub fn set_keystore(&mut self, keystore: KeyStore) -> (r: &Self)
        ensures
            final(self).keystore_of() == keystore,
            final(self).mode_of() == old(self).mode_of(),
            final(self).policy_of() == old(self).policy_of(),
            final(self).filter_of() == old(self).filter_of(),
            final(self).inner_of() == old(self).inner_of(),
            *r == *final(self),
    {
        self.keystore = keystore;
        self
    }

    /// Replaces the policy.
    pub fn set_policy(&mut self, policy: PolicyEngine) -> (r: &Self)
        ensures
            final(self).policy_of() == policy,
            final(self).mode_of() == old(self).mode_of(),
            final(self).keystore_of() == old(self).keystore_of(),
            final(self).filter_of() == old(self).filter_of(),
            final(self).inner_of() == old(self).inner_of(),
            *r == *final(self),
    {
        self.policy = policy;
        self
    }

    /// The endorsement mode.
    pub fn get_endorsement_mode(&self) -> (r: EndorsementMode)
        ensures
            r == self.mode_of(),
    {
        self.endorsement_mode
    }

    /// The key store.
    pub fn get_keystore(&self) -> (r: &KeyStore)
        ensures
            *r == self.keystore_of(),
    {
        &self.keystore
    }

    /// The key store, to change it.
    pub fn get_keystore_mut(&mut self) -> (r: &mut KeyStore)
        ensures
            *r == old(self).keystore_of(),
            final(self).keystore_of() == *final(r),
            final(self).mode_of() == old(self).mode_of(),
            final(self).policy_of() == old(self).policy_of(),
            final(self).filter_of() == old(self).filter_of(),
            final(self).inner_of() == old(self).inner_of(),
    {
        &mut self.keystore
    }

    /// The policy.
    pub fn get_policy(&self) -> (r: &PolicyEngine)
        ensures
            *r == self.policy_of(),
    {
        &self.policy
    }

    /// The policy, to change it.
    pub fn get_policy_mut(&mut self) -> (r: &mut PolicyEngine)
        ensures
            *r == old(self).policy_of(),
            final(self).policy_of() == *final(r),
            final(self).mode_of() == old(self).mode_of(),
            final(self).keystore_of() == old(self).keystore_of(),
            final(self).filter_of() == old(self).filter_of(),
            final(self).inner_of() == old(self).inner_of(),
    {
        &mut self.policy
    }

    /// The white- and blacklists.
    pub fn get_delta_filter(&self) -> (r: &DeltaFilter)
        ensures
            *r == self.filter_of(),
    {
        &self.delta_filter
    }

    /// The wrapped adapter.
    pub fn get_inner(&self) -> (r: &A)
        ensures
            *r == self.inner_of(),
    {
        &self.inner
    }

    /// Whitelists a delta; tells whether it was not whitelisted before.
    pub fn add_delta_to_whitelist(&mut self, delta_id: &DeltaId) -> (r: Result<bool, SecError>)
        requires
            old(self).wf(),
            delta_id.wf(),
        ensures
            final(self).wf(),
            r == Ok::<bool, SecError>(!old(self).filter_of().whitelist().contains(delta_key_text(delta_id@.0, delta_id@.1))),
            final(self).filter_of().whitelist() == old(self).filter_of().whitelist().insert(delta_key_text(delta_id@.0, delta_id@.1)),
            final(self).filter_of().blacklist() == old(self).filter_of().blacklist(),
            final(self).keystore_of() == old(self).keystore_of(),
            final(self).policy_of() == old(self).policy_of(),
            final(self).mode_of() == old(self).mode_of(),
    {
        self.delta_filter.add_to_whitelist(delta_id)
    }

    /// Blacklists a delta; tells whether it was not blacklisted before.
    pub fn add_delta_to_blacklist(&mut self, delta_id: &DeltaId) -> (r: Result<bool, SecError>)
        requires
            old(self).wf(),
            delta_id.wf(),
        ensures
            final(self).wf(),
            r == Ok::<bool, SecError>(!old(self).filter_of().blacklist().contains(delta_key_text(delta_id@.0, delta_id@.1))),
            final(self).filter_of().blacklist() == old(self).filter_of().blacklist().insert(delta_key_text(delta_id@.0, delta_id@.1)),
            final(self).filter_of().whitelist() == old(self).filter_of().whitelist(),
            final(self).keystore_of() == old(self).keystore_of(),
            final(self).policy_of() == old(self).policy_of(),
            final(self).mode_of() == old(self).mode_of(),
    {
        self.delta_filter.add_to_blacklist(delta_id)
    }

    /// Screens a read of `length` bytes at `offset` of the object `key`, whose
    /// stored content is `data`, before any endorsement is looked at.
    pub fn screen_read(&self, key: &str, offset: usize, length: usize, data: Vec<u8>) -> (r: ReadScreen)
        requires
            self.wf(),
            offset + length <= usize::MAX,
            is_delta_key_name(key@) && offset == 0 && length == 0 ==> delta_text_parse_defined(key@),
        ensures
            screen_view(r) == read_screen(
                self.mode_of(),
                self.filter_of().whitelist(),
                self.filter_of().blacklist(),
                key@,
                offset as nat,
                length as nat,
                data@,
            ),
            r matches ReadScreen::Endorsements(id, _) ==> id.wf(),
    {
        if !ends_with_delta(key) || offset != 0 || length != 0 {
            return ReadScreen::Done(read_slice(data, offset, length));
        }
        let delta_id = match DeltaId::from(key) {
            Ok(id) => id,
            Err(_) => return ReadScreen::Done(Err(SecError::InvalidDelta)),
        };
        if self.delta_filter.is_blacklisted(&delta_id) {
            return ReadScreen::Done(Err(SecError::Blacklisted));
        }
        if self.delta_filter.is_whitelisted(&delta_id) || self.endorsement_mode == EndorsementMode::DISABLED {
            return ReadScreen::Done(Ok(data));
        }
        ReadScreen::Endorsements(delta_id, data)
    }

    /// Classifies the endorsement files of a delta, in order, given what reading
    /// each gave: an endorsement is valid when its key is trusted, its record is
    /// well formed and its signature of the delta's digest verifies. The file of
    /// a key that is not trusted is set aside as invalid without being looked
    /// at; the first error in the file of a trusted key ends the classification.
    pub fn fetch_endorsements(
        &self,
        delta_id: &DeltaId,
        items: &Vec<(EndorsementKey, Result<EndorsementRecord, SecError>)>,
    ) -> (r: Result<EndorsementFetchResult, SecError>)
        requires
            self.wf(),
        ensures
            fetch_result_view(r) == classify_endorsements(
                self.keystore_of().trusted(),
                delta_id@,
                fetched_views(items@),
            ),
            r matches Ok(f) ==> f.wf(),
    {
        let ghost trusted = self.keystore_of().trusted();
        let ghost views = fetched_views(items@);
        let msg = delta_id.digest().as_str().as_bytes();
        let mut result = EndorsementFetchResult::new();
        let mut i: usize = 0;
        assert(views.take(0) =~= Seq::<(Seq<u8>, Result<(u32, Seq<char>, Seq<char>), SecError>)>::empty());
        while i < items.len()
            invariant
                self.wf(),
                trusted == self.keystore_of().trusted(),
                views == fetched_views(items@),
                msg@ == endorsement_message(delta_id@),
                i <= items@.len(),
                result.wf(),
                classify_endorsements(trusted, delta_id@, views.take(i as int)) == Ok::<_, SecError>(
                    (result.valid_set(), result.invalid_set()),
                ),
            decreases items@.len() - i,
        {
            let item = &items[i];
            let pubkey = item.0.pubkey();
            proof {
                assert(views.take(i + 1).drop_last() =~= views.take(i as int));
                assert(views.take(i + 1).last() == fetched_view(items@[i as int]));
                self.keystore_of().lemma_well_formed();
            }
            if !self.keystore.is_trusted(pubkey.as_slice()) {
                result.insert_invalid(pubkey.as_slice());
            } else {
            match &item.1 {
                Err(e) => {
                    proof {
                        lemma_classify_error_persists(trusted, delta_id@, views, i + 1);
                    }
                    return Err(e.copy());
                },
                Ok(record) => {
                    let failure = if !(record.version == 1 && is_ed25519_name(&record.algorithm)) {
                        Some(SecError::UnsupportedEndorsementFormat)
                    } else {
                        match base64_decode(record.signature.as_str()) {
                            None => Some(SecError::InvalidBase64),
                            Some(sig) => {
                                if sig.len() != 64 {
                                    Some(SecError::InvalidSignatureLength)
                                } else if !ed25519_check_public(pubkey.as_slice()) {
                                    Some(SecError::InvalidEndorsementPublicKey)
                                } else {
                                    if ed25519_verify(pubkey.as_slice(), msg, sig.as_slice()) {
                                        result.insert_valid(pubkey.as_slice());
                                    } else {
                                        result.insert_invalid(pubkey.as_slice());
                                    }
                                    None
                                }
                            },
                        }
                    };
                    match failure {
                        Some(e) => {
                            proof {
                                lemma_classify_error_persists(trusted, delta_id@, views, i + 1);
                            }
                            return Err(e);
                        },
                        None => {},
                    }
                },
            }
            }
            i = i + 1;
        }
        proof {
            assert(views.take(items@.len() as int) =~= views);
        }
        Ok(result)
    }

    /// Whether the policy allows `endorser` to change every object of `ids`.
    fn authorized_for_all(&self, endorser: &[u8], ids: &Vec<String>) -> (r: bool)
        requires
            self.wf(),
        ensures
            r == (forall|i: int|
                0 <= i < ids@.len() ==> policy_allows(
                    self.policy_of().rule_views(),
                    self.keystore_of().roles(),
                    endorser@,
                    (#[trigger] ids@[i])@,
                )),
    {
        let ghost idv = ids@.map_values(|s: String| s@);
        let mut i: usize = 0;
        while i < ids.len()
            invariant
                self.wf(),
                idv == ids@.map_values(|s: String| s@),
                i <= ids@.len(),
                forall|j: int|
                    0 <= j < i ==> policy_allows(
                        self.policy_of().rule_views(),
                        self.keystore_of().roles(),
                        endorser@,
                        (#[trigger] ids@[j])@,
                    ),
            decreases ids@.len() - i,
        {
            if !self.policy.allows(&self.keystore, endorser, ids[i].as_str()) {
                return false;
            }
            i = i + 1;
        }
        true
    }

    /// Decides whether a delta with content `data`, whose endorsements were
    /// classified as `fetched`, is admitted: enough valid endorsements, and
    /// enough endorsers that the policy allows to change every object the delta
    /// creates or modifies. Gives back the data when it is admitted.
    pub fn admit_delta(&self, fetched: &EndorsementFetchResult, data: Vec<u8>) -> (r: Result<Vec<u8>, SecError>)
        requires
            self.wf(),
            fetched.wf(),
        ensures
            bytes_result_view(r) == admission(
                self.mode_of(),
                self.keystore_of().trusted().len(),
                fetched.valid_set(),
                self.policy_of().rule_views(),
                self.keystore_of().roles(),
                data@,
            ),
    {
        let trusted_count = self.keystore.trusted_key_count();
        if !suffices(self.endorsement_mode, fetched.valid_count(), trusted_count) {
            return Err(SecError::InsufficientEndorsements);
        }
        let ids = extract_created_and_modified_object_ids(data.as_slice());
        let ghost idv = ids@.map_values(|s: String| s@);
        let ghost rules = self.policy_of().rule_views();
        let ghost roles = self.keystore_of().roles();
        let valid = fetched.valid();
        let ghost vl = fetched.valid_list();
        let mut allowed: usize = 0;
        let mut i: usize = 0;
        proof {
            assert(vl.take(0).to_set() =~= Set::<Seq<u8>>::empty());
            assert(authorized_endorsers(Set::<Seq<u8>>::empty(), rules, roles, idv) =~= Set::<Seq<u8>>::empty());
        }
        while i < valid.len()
            invariant
                self.wf(),
                fetched.wf(),
                valid@.map_values(|k: Vec<u8>| k@) == vl,
                vl == fetched.valid_list(),
                vl.no_duplicates(),
                idv == ids@.map_values(|s: String| s@),
                rules == self.policy_of().rule_views(),
                roles == self.keystore_of().roles(),
                i <= valid@.len(),
                allowed <= i,
                authorized_endorsers(vl.take(i as int).to_set(), rules, roles, idv).finite(),
                allowed == authorized_endorsers(vl.take(i as int).to_set(), rules, roles, idv).len(),
            decreases valid@.len() - i,
        {
            let ghost before = vl.take(i as int).to_set();
            proof {
                assert(vl.take(i + 1) =~= vl.take(i as int).push(vl[i as int]));
                vl.take(i as int).lemma_push_to_set_commute(vl[i as int]);
                assert(!before.contains(vl[i as int])) by {
                    if before.contains(vl[i as int]) {
                        let j = choose|j: int| 0 <= j < i && vl.take(i as int)[j] == vl[i as int];
                        assert(vl[j] == vl[i as int]);
                    }
                }
                lemma_authorized_insert(before, rules, roles, idv, vl[i as int]);
                assert(vl[i as int] == valid@[i as int]@);
                let f = authorized_endorsers(before, rules, roles, idv);
                assert(!f.contains(vl[i as int]));
            }
            let ok = self.authorized_for_all(valid[i].as_slice(), &ids);
            proof {
                assert(ok == (forall|t: int| 0 <= t < idv.len() ==> policy_allows(rules, roles, vl[i as int], #[trigger] idv[t]))) by {
                    if ok {
                        assert forall|t: int| 0 <= t < idv.len() implies policy_allows(rules, roles, vl[i as int], #[trigger] idv[t]) by {
                            assert(idv[t] == ids@[t]@);
                        }
                    } else {
                        let t = choose|t: int| 0 <= t < ids@.len() && !policy_allows(rules, roles, vl[i as int], (#[trigger] ids@[t])@);
                        assert(idv[t] == ids@[t]@);
                    }
                }
            }
            if ok {
                allowed = allowed + 1;
            }
            i = i + 1;
        }
        proof {
            assert(vl.take(valid@.len() as int) =~= vl);
            assert(authorized_endorsers(fetched.valid_set(), rules, roles, idv) == authorized_endorsers(
                vl.to_set(),
                rules,
                roles,
                idv,
            ));
        }
        if !suffices(self.endorsement_mode, allowed, trusted_count) {
            return Err(SecError::NotAllowedByPolicy);
        }
        Ok(data)
    }

    /// The endorsement of `delta_id` by our endorsement key; it names the
    /// endorsement file. Fails when no endorsement key is set.
    pub fn endorsement_target(&self, delta_id: &DeltaId) -> (r: Result<EndorsementKey, SecError>)
        requires
            self.wf(),
            delta_id.wf(),
        ensures
            r is Err <==> self.keystore_of().secret() is None,
            r matches Err(e) ==> e == SecError::MissingEndorsementKey,
            r matches Ok(k) ==> k.wf() && k@ == (delta_id@, ed25519_public_key(self.keystore_of().secret()->0)),
    {
        match self.keystore.endorsement_public_key() {
            None => Err(SecError::MissingEndorsementKey),
            Some(pubkey) => Ok(EndorsementKey::new(delta_id.copy(), pubkey)),
        }
    }

    /// Endorses `delta_id`, given the record already stored under the name of
    /// our endorsement (`None` when there is none or it could not be read).
    /// Gives `None` when that record already holds a valid signature of ours,
    /// and otherwise the fresh record to write under that name. A record that
    /// is given back, or written, is one that reading the endorsements of the
    /// delta counts as valid when our key is trusted, and endorsing again with
    /// that record stored does nothing.
    pub fn endorse(&self, delta_id: &DeltaId, existing: Option<EndorsementRecord>) -> (r: Result<
        Option<EndorsementRecord>,
        SecError,
    >)
        requires
            self.wf(),
            delta_id.wf(),
        ensures
            endorse_view(r) == endorsement_outcome(self.keystore_of().secret(), delta_id@, opt_record_view(existing)),
            r matches Ok(Some(rec)) ==> endorsement_verdict(
                self.keystore_of().trusted(),
                delta_id@,
                ed25519_public_key(self.keystore_of().secret()->0),
                record_view(rec),
            ) == Ok::<bool, SecError>(self.keystore_of().trusted().contains(
                ed25519_public_key(self.keystore_of().secret()->0),
            )),
            r matches Ok(Some(rec)) ==> rec.signature@.len() > 0,
            r matches Ok(Some(rec)) ==> endorsement_outcome(
                self.keystore_of().secret(),
                delta_id@,
                Some(record_view(rec)),
            ) == Ok::<Option<(u32, Seq<char>, Seq<char>)>, SecError>(None),
            r matches Ok(None) ==> (existing matches Some(rec) && rec.version == 1 && rec.algorithm@ == ed25519_name()
                && rec.signature@.len() > 0),
            r is Ok ==> (record_after_endorse(existing, r) matches Some(rec) && rec.version == 1
                && rec.algorithm@ == ed25519_name() && rec.signature@.len() > 0 && endorsement_verdict(
                self.keystore_of().trusted(),
                delta_id@,
                ed25519_public_key(self.keystore_of().secret()->0),
                record_view(rec),
            ) == Ok::<bool, SecError>(self.keystore_of().trusted().contains(
                ed25519_public_key(self.keystore_of().secret()->0),
            ))),
            r matches Ok(None) ==> (existing matches Some(rec) && endorsement_verdict(
                self.keystore_of().trusted(),
                delta_id@,
                ed25519_public_key(self.keystore_of().secret()->0),
                record_view(rec),
            ) == Ok::<bool, SecError>(self.keystore_of().trusted().contains(
                ed25519_public_key(self.keystore_of().secret()->0),
            ))),
    {
        let pubkey = match self.keystore.endorsement_public_key() {
            None => return Err(SecError::MissingEndorsementKey),
            Some(p) => p,
        };
        let msg = delta_id.digest().as_str().as_bytes();
        match &existing {
            Some(rec) => {
                if rec.version == 1 && is_ed25519_name(&rec.algorithm) {
                    match base64_decode(rec.signature.as_str()) {
                        None => return Err(SecError::InvalidBase64),
                        Some(sig) => {
                            if sig.len() == 64 && ed25519_verify(pubkey.as_slice(), msg, sig.as_slice()) {
                                return Ok(None);
                            }
                        },
                    }
                }
            },
            None => {},
        }
        let sig = match self.keystore.endorse(msg) {
            Some(s) => s,
            None => return Err(SecError::MissingEndorsementKey),
        };
        let signature = base64_encode(sig.as_slice());
        let algorithm = String::from_str("Ed25519");
        proof {
            reveal_strlit("Ed25519");
            assert(algorithm@ =~= ed25519_name());
        }
        Ok(Some(EndorsementRecord { version: 1, algorithm, signature }))
    }
}

/// A blacklisted delta is never read, whatever the endorsement mode and the
/// whitelist say.
pub proof fn lemma_blacklisted_never_read(
    mode: EndorsementMode,
    whitelist: Set<Seq<char>>,
    blacklist: Set<Seq<char>>,
    key: Seq<char>,
    data: Seq<u8>,
)
    requires
        is_delta_key_name(key),
        delta_id_of(key) matches Some(d) && blacklist.contains(delta_key_text(d.0, d.1)),
    ensures
        read_screen(mode, whitelist, blacklist, key, 0, 0, data) == ScreenView::Decided(
            Err::<Seq<u8>, SecError>(SecError::Blacklisted),
        ),
{
}

/// A whitelisted delta that is not blacklisted is read as stored, without
/// looking at its endorsements; so is every delta that is not blacklisted when
/// the endorsement mode is disabled.
pub proof fn lemma_whitelisted_read_without_endorsements(
    mode: EndorsementMode,
    whitelist: Set<Seq<char>>,
    blacklist: Set<Seq<char>>,
    key: Seq<char>,
    data: Seq<u8>,
)
    requires
        is_delta_key_name(key),
        delta_id_of(key) matches Some(d) && !blacklist.contains(delta_key_text(d.0, d.1)) && (
        whitelist.contains(delta_key_text(d.0, d.1)) || mode == EndorsementMode::DISABLED),
    ensures
        read_screen(mode, whitelist, blacklist, key, 0, 0, data) == ScreenView::Decided(Ok::<Seq<u8>, SecError>(data)),
{
}

/// Only trusted keys are counted as valid endorsers.
pub proof fn lemma_valid_endorsers_are_trusted(
    trusted: Set<Seq<u8>>,
    delta: (u32, Seq<char>),
    items: Seq<(Seq<u8>, Result<(u32, Seq<char>, Seq<char>), SecError>)>,
)
    ensures
        classify_endorsements(trusted, delta, items) matches Ok((valid, invalid)) ==> valid.subset_of(trusted),
    decreases items.len(),
{
    if items.len() > 0 {
        lemma_valid_endorsers_are_trusted(trusted, delta, items.drop_last());
    }
}

/// More valid endorsements never make an admitted delta inadmissible.
pub proof fn lemma_more_endorsements_keep_admission(
    mode: EndorsementMode,
    trusted: nat,
    valid: Set<Seq<u8>>,
    more: Set<Seq<u8>>,
    rules: Seq<RuleView>,
    roles: Map<Seq<u8>, Seq<char>>,
    data: Seq<u8>,
)
    requires
        valid.subset_of(more),
        more.finite(),
        admission(mode, trusted, valid, rules, roles, data) is Ok,
    ensures
        admission(mode, trusted, more, rules, roles, data) is Ok,
{
    let ids = created_and_modified_ids(data);
    vstd::set_lib::lemma_len_subset(valid, more);
    more.lemma_len_filter(|e: Seq<u8>| forall|i: int| 0 <= i < ids.len() ==> policy_allows(rules, roles, e, #[trigger] ids[i]));
    vstd::set_lib::lemma_len_subset(
        authorized_endorsers(valid, rules, roles, ids),
        authorized_endorsers(more, rules, roles, ids),
    );
}

/// Under the majority mode an admitted delta is endorsed, validly and with
/// authorization, by more than half of the trusted keys.
pub proof fn lemma_majority_admission(
    trusted: nat,
    valid: Set<Seq<u8>>,
    rules: Seq<RuleView>,
    roles: Map<Seq<u8>, Seq<char>>,
    data: Seq<u8>,
)
    requires
        admission(EndorsementMode::MAJORITY, trusted, valid, rules, roles, data) is Ok,
    ensures
        2 * valid.len() > trusted,
        2 * authorized_endorsers(valid, rules, roles, created_and_modified_ids(data)).len() > trusted,
{
}

/// The key of a delta names a delta and parses back into it.
proof fn lemma_delta_key_reads_as_delta(index: u32, digest: Seq<char>)
    requires
        is_word_text(digest),
    ensures
        is_delta_key_name(delta_key_text(index, digest)),
        delta_id_of(delta_key_text(index, digest)) == Some((index, digest)),
{
    lemma_delta_key_parses(index, digest);
    let k = delta_key_text(index, digest);
    assert(k.subrange(k.len() - 6, k.len() as int) =~= delta_extension());
}

/// Blacklisting a delta revokes it: once its key is on the blacklist, reading
/// the delta is refused, whatever the whitelist and the endorsement mode say.
pub proof fn lemma_blacklisting_revokes(
    mode: EndorsementMode,
    whitelist: Set<Seq<char>>,
    blacklist: Set<Seq<char>>,
    index: u32,
    digest: Seq<char>,
    data: Seq<u8>,
)
    requires
        is_word_text(digest),
    ensures
        read_screen(
            mode,
            whitelist,
            blacklist.insert(delta_key_text(index, digest)),
            delta_key_text(index, digest),
            0,
            0,
            data,
        ) == ScreenView::Decided(Err::<Seq<u8>, SecError>(SecError::Blacklisted)),
{
    lemma_delta_key_reads_as_delta(index, digest);
}

/// Whitelisting a delta that is not blacklisted makes it readable as stored,
/// without looking at its endorsements.
pub proof fn lemma_whitelisting_admits(
    mode: EndorsementMode,
    whitelist: Set<Seq<char>>,
    blacklist: Set<Seq<char>>,
    index: u32,
    digest: Seq<char>,
    data: Seq<u8>,
)
    requires
        is_word_text(digest),
        !blacklist.contains(delta_key_text(index, digest)),
    ensures
        read_screen(
            mode,
            whitelist.insert(delta_key_text(index, digest)),
            blacklist,
            delta_key_text(index, digest),
            0,
            0,
            data,
        ) == ScreenView::Decided(Ok::<Seq<u8>, SecError>(data)),
{
    lemma_delta_key_reads_as_delta(index, digest);
}

/// Stored is not trusted: unless the endorsement mode is disabled, a delta
/// without valid endorsements is refused.
pub proof fn lemma_unendorsed_delta_refused(
    mode: EndorsementMode,
    trusted: nat,
    rules: Seq<RuleView>,
    roles: Map<Seq<u8>, Seq<char>>,
    data: Seq<u8>,
)
    requires
        mode != EndorsementMode::DISABLED,
    ensures
        admission(mode, trusted, Set::<Seq<u8>>::empty(), rules, roles, data) == Err::<Seq<u8>, SecError>(
            SecError::InsufficientEndorsements,
        ),
{
}

/// Only trusted identities count: adding, anywhere among the endorsement files
/// of a delta, a file by a key that is not trusted (whatever it holds, even one
/// that could not be read) changes neither the valid endorsers nor whether the
/// classification fails; the key is only set aside as invalid.
pub proof fn lemma_untrusted_endorsement_ignored(
    trusted: Set<Seq<u8>>,
    delta: (u32, Seq<char>),
    items: Seq<(Seq<u8>, Result<(u32, Seq<char>, Seq<char>), SecError>)>,
    k: int,
    x: (Seq<u8>, Result<(u32, Seq<char>, Seq<char>), SecError>),
)
    requires
        0 <= k <= items.len(),
        !trusted.contains(x.0),
    ensures
        match (classify_endorsements(trusted, delta, items.insert(k, x)), classify_endorsements(trusted, delta, items)) {
            (Ok((v1, i1)), Ok((v2, i2))) => v1 == v2 && i1 == i2.insert(x.0),
            (Err(e1), Err(e2)) => e1 == e2,
            _ => false,
        },
    decreases items.len(),
{
    let with = items.insert(k, x);
    if k == items.len() {
        assert(with.drop_last() =~= items);
        assert(with.last() == x);
    } else {
        assert(with.drop_last() =~= items.drop_last().insert(k, x));
        assert(with.last() == items.last());
        lemma_untrusted_endorsement_ignored(trusted, delta, items.drop_last(), k, x);
        match (classify_endorsements(trusted, delta, with.drop_last()), classify_endorsements(trusted, delta, items.drop_last())) {
            (Ok((v1, i1)), Ok((v2, i2))) => {
                let l = items.last().0;
                assert(i2.insert(x.0).insert(l) =~= i2.insert(l).insert(x.0));
            },
            _ => {},
        }
    }
}

/// Deterministic reconstruction: two trust layers with the same white- and
/// blacklists, endorsement mode, trusted keys, roles and rules decide every
/// read alike (the screening, the classification of the same endorsement files
/// and the admission of the same data), whatever their own endorsement keys
/// and wrapped adapters.
pub proof fn lemma_same_configuration_same_reads<A, B>(
    t1: TrustAdapter<A>,
    t2: TrustAdapter<B>,
    key: Seq<char>,
    offset: nat,
    length: nat,
    data: Seq<u8>,
    delta: (u32, Seq<char>),
    items: Seq<(Seq<u8>, Result<(u32, Seq<char>, Seq<char>), SecError>)>,
    valid: Set<Seq<u8>>,
)
    requires
        t1.filter_of().whitelist() == t2.filter_of().whitelist(),
        t1.filter_of().blacklist() == t2.filter_of().blacklist(),
        t1.mode_of() == t2.mode_of(),
        t1.keystore_of().trusted() == t2.keystore_of().trusted(),
        t1.keystore_of().roles() == t2.keystore_of().roles(),
        t1.policy_of().rule_views() == t2.policy_of().rule_views(),
    ensures
        read_screen(t1.mode_of(), t1.filter_of().whitelist(), t1.filter_of().blacklist(), key, offset, length, data)
            == read_screen(
            t2.mode_of(),
            t2.filter_of().whitelist(),
            t2.filter_of().blacklist(),
            key,
            offset,
            length,
            data,
        ),
        classify_endorsements(t1.keystore_of().trusted(), delta, items) == classify_endorsements(
            t2.keystore_of().trusted(),
            delta,
            items,
        ),
        admission(
            t1.mode_of(),
            t1.keystore_of().trusted().len(),
            valid,
            t1.policy_of().rule_views(),
            t1.keystore_of().roles(),
            data,
        ) == admission(
            t2.mode_of(),
            t2.keystore_of().trusted().len(),
            valid,
            t2.policy_of().rule_views(),
            t2.keystore_of().roles(),
            data,
        ),
{
}

} // verus!
