//! Explicit white- and blacklists of deltas, by delta key.
use vstd::prelude::*;

use crate::deltaid::{
    delta_id_of, delta_key_text, delta_text_parse_defined, is_word_text, lemma_delta_key_parses,
    DeltaId,
};
use crate::error::SecError;

verus! {

broadcast use vstd::seq_lib::group_seq_properties;

/// Whether `key` is the key of a delta with a well-formed digest.
pub open spec fn is_delta_key(key: Seq<char>) -> bool {
    exists|i: u32, d: Seq<char>| is_word_text(d) && key == #[trigger] delta_key_text(i, d)
}

/// Loading delta texts in order: the set of their delta keys, or
/// `InvalidDeltaId` for the first text that `DeltaId::from` refuses.
pub open spec fn load_delta_keys(ts: Seq<Seq<char>>) -> Result<Set<Seq<char>>, SecError>
    decreases ts.len(),
{
    if ts.len() == 0 {
        Ok(Set::empty())
    } else {
        match load_delta_keys(ts.drop_last()) {
            Err(e) => Err(e),
            Ok(s) => match delta_id_of(ts.last()) {
                None => Err(SecError::InvalidDeltaId),
                Some((i, d)) => Ok(s.insert(delta_key_text(i, d))),
            },
        }
    }
}

/// A whitelist and a blacklist of delta keys.
pub struct DeltaFilter {
    whitelist: Vec<String>,
    blacklist: Vec<String>,
}

fn find_key(list: &Vec<String>, key: &String) -> (r: bool)
    ensures
        r == list@.map_values(|s: String| s@).contains(key@),
{
    let ghost views = list@.map_values(|s: String| s@);
    let mut i: usize = 0;
    while i < list.len()
        invariant
            views == list@.map_values(|s: String| s@),
            i <= list@.len(),
            forall|j: int| 0 <= j < i ==> views[j] != key@,
        decreases list@.len() - i,
    {
        if list[i].eq(key) {
            assert(views[i as int] == key@);
            return true;
        }
        i = i + 1;
    }
    false
}

/// Adds `key` to a list without duplicates; tells whether it was new.
fn insert_key(list: &mut Vec<String>, key: String) -> (r: bool)
    requires
        old(list)@.map_values(|s: String| s@).no_duplicates(),
    ensures
        final(list)@.map_values(|s: String| s@).no_duplicates(),
        r == !old(list)@.map_values(|s: String| s@).contains(key@),
        final(list)@.map_values(|s: String| s@) == (if r {
            old(list)@.map_values(|s: String| s@).push(key@)
        } else {
            old(list)@.map_values(|s: String| s@)
        }),
{
    if find_key(list, &key) {
        false
    } else {
        let ghost before = list@;
        list.push(key);
        proof {
            before.lemma_push_map_commute(|s: String| s@, key);
        }
        true
    }
}

fn copy_keys(list: &Vec<String>) -> (r: Vec<String>)
    ensures
        r@.map_values(|s: String| s@) == list@.map_values(|s: String| s@),
{
    let mut r: Vec<String> = Vec::new();
    let mut i: usize = 0;
    while i < list.len()
        invariant
            i <= list@.len(),
            r@.map_values(|s: String| s@) == list@.map_values(|s: String| s@).subrange(0, i as int),
        decreases list@.len() - i,
    {
        let ghost before = r@;
        r.push(list[i].clone());
        proof {
            before.lemma_push_map_commute(|s: String| s@, r@.last());
        }
        i = i + 1;
        assert(r@.map_values(|s: String| s@) =~= list@.map_values(|s: String| s@).subrange(0, i as int));
    }
    assert(list@.map_values(|s: String| s@).subrange(0, i as int) =~= list@.map_values(|s: String| s@));
    r
}

impl DeltaFilter {
    /// The whitelisted keys, in export order.
    pub closed spec fn whitelist_list(&self) -> Seq<Seq<char>> {
        self.whitelist@.map_values(|s: String| s@)
    }

    /// The blacklisted keys, in export order.
    pub closed spec fn blacklist_list(&self) -> Seq<Seq<char>> {
        self.blacklist@.map_values(|s: String| s@)
    }

    /// The set of whitelisted delta keys.
    pub open spec fn whitelist(&self) -> Set<Seq<char>> {
        self.whitelist_list().to_set()
    }

    /// The set of blacklisted delta keys.
    pub open spec fn blacklist(&self) -> Set<Seq<char>> {
        self.blacklist_list().to_set()
    }

    /// Each list holds each key once, and only keys of deltas.
    pub closed spec fn wf(&self) -> bool {
        &&& self.whitelist_list().no_duplicates()
        &&& self.blacklist_list().no_duplicates()
        &&& forall|i: int| 0 <= i < self.whitelist_list().len() ==> is_delta_key(#[trigger] self.whitelist_list()[i])
        &&& forall|i: int| 0 <= i < self.blacklist_list().len() ==> is_delta_key(#[trigger] self.blacklist_list()[i])
    }

    /// Empty white- and blacklists.
    pub fn new() -> (r: DeltaFilter)
        ensures
            r.wf(),
            r.whitelist_list() == Seq::<Seq<char>>::empty(),
            r.blacklist_list() == Seq::<Seq<char>>::empty(),
            r.whitelist() == Set::<Seq<char>>::empty(),
            r.blacklist() == Set::<Seq<char>>::empty(),
    {
        let r = DeltaFilter { whitelist: Vec::new(), blacklist: Vec::new() };
        assert(r.whitelist_list() =~= Seq::<Seq<char>>::empty());
        assert(r.blacklist_list() =~= Seq::<Seq<char>>::empty());
        assert(r.whitelist() =~= Set::<Seq<char>>::empty());
        assert(r.blacklist() =~= Set::<Seq<char>>::empty());
        r
    }

    /// Whitelists the delta; tells whether it was not whitelisted before.
    pub fn add_to_whitelist(&mut self, delta_id: &DeltaId) -> (r: Result<bool, SecError>)
        requires
            old(self).wf(),
            delta_id.wf(),
        ensures
            final(self).wf(),
            r == Ok::<bool, SecError>(!old(self).whitelist().contains(delta_key_text(delta_id@.0, delta_id@.1))),
            final(self).whitelist() == old(self).whitelist().insert(delta_key_text(delta_id@.0, delta_id@.1)),
            final(self).blacklist() == old(self).blacklist(),
            final(self).whitelist_list() == (if old(self).whitelist().contains(delta_key_text(delta_id@.0, delta_id@.1)) {
                old(self).whitelist_list()
            } else {
                old(self).whitelist_list().push(delta_key_text(delta_id@.0, delta_id@.1))
            }),
            final(self).blacklist_list() == old(self).blacklist_list(),
    {
        let key = delta_id.key();
        let ghost before = self.whitelist_list();
        let added = insert_key(&mut self.whitelist, key);
        proof {
            before.lemma_push_to_set_commute(key@);
            delta_id.lemma_wf_digest();
            assert(is_delta_key(key@));
            if !added {
                assert(before.to_set() =~= before.to_set().insert(key@));
            }
        }
        Ok(added)
    }

    /// Whether the delta is whitelisted.
    pub fn is_whitelisted(&self, delta_id: &DeltaId) -> (r: bool)
        ensures
            r == self.whitelist().contains(delta_key_text(delta_id@.0, delta_id@.1)),
    {
        let key = delta_id.key();
        find_key(&self.whitelist, &key)
    }

    /// Blacklists the delta; tells whether it was not blacklisted before.
    pub fn add_to_blacklist(&mut self, delta_id: &DeltaId) -> (r: Result<bool, SecError>)
        requires
            old(self).wf(),
            delta_id.wf(),
        ensures
            final(self).wf(),
            r == Ok::<bool, SecError>(!old(self).blacklist().contains(delta_key_text(delta_id@.0, delta_id@.1))),
            final(self).blacklist() == old(self).blacklist().insert(delta_key_text(delta_id@.0, delta_id@.1)),
            final(self).whitelist() == old(self).whitelist(),
            final(self).blacklist_list() == (if old(self).blacklist().contains(delta_key_text(delta_id@.0, delta_id@.1)) {
                old(self).blacklist_list()
            } else {
                old(self).blacklist_list().push(delta_key_text(delta_id@.0, delta_id@.1))
            }),
            final(self).whitelist_list() == old(self).whitelist_list(),
    {
        let key = delta_id.key();
        let ghost before = self.blacklist_list();
        let added = insert_key(&mut self.blacklist, key);
        proof {
            before.lemma_push_to_set_commute(key@);
            delta_id.lemma_wf_digest();
            assert(is_delta_key(key@));
            if !added {
                assert(before.to_set() =~= before.to_set().insert(key@));
            }
        }
        Ok(added)
    }

    /// Whether the delta is blacklisted.
    pub fn is_blacklisted(&self, delta_id: &DeltaId) -> (r: bool)
        ensures
            r == self.blacklist().contains(delta_key_text(delta_id@.0, delta_id@.1)),
    {
        let key = delta_id.key();
        find_key(&self.blacklist, &key)
    }

    /// The whitelisted keys, each once.
    pub fn get_whitelist(&self) -> (r: Vec<String>)
        requires
            self.wf(),
        ensures
            r@.map_values(|s: String| s@) == self.whitelist_list(),
            r@.map_values(|s: String| s@).no_duplicates(),
            r@.map_values(|s: String| s@).to_set() == self.whitelist(),
    {
        copy_keys(&self.whitelist)
    }

    /// The blacklisted keys, each once.
    pub fn get_blacklist(&self) -> (r: Vec<String>)
        requires
            self.wf(),
        ensures
            r@.map_values(|s: String| s@) == self.blacklist_list(),
            r@.map_values(|s: String| s@).no_duplicates(),
            r@.map_values(|s: String| s@).to_set() == self.blacklist(),
    {
        copy_keys(&self.blacklist)
    }

    /// Each list holds each of its keys once, and lists exactly the keys of its
    /// set: adding a key again leaves a list as it was.
    pub proof fn lemma_each_key_once(&self)
        requires
            self.wf(),
        ensures
            self.whitelist_list().no_duplicates(),
            self.blacklist_list().no_duplicates(),
            self.whitelist_list().len() == self.whitelist().len(),
            self.blacklist_list().len() == self.blacklist().len(),
            forall|k: Seq<char>| #[trigger] self.whitelist().contains(k) <==> self.whitelist_list().contains(k),
            forall|k: Seq<char>| #[trigger] self.blacklist().contains(k) <==> self.blacklist_list().contains(k),
    {
        self.whitelist_list().unique_seq_to_set();
        self.blacklist_list().unique_seq_to_set();
    }

    /// Each exported key is parsable and loads back to itself: loading the
    /// exported lists gives back the white- and blacklist.
    pub proof fn lemma_export_loads_back(&self)
        requires
            self.wf(),
        ensures
            forall|i: int| 0 <= i < self.whitelist_list().len() ==> delta_text_parse_defined(#[trigger] self.whitelist_list()[i]),
            forall|i: int| 0 <= i < self.blacklist_list().len() ==> delta_text_parse_defined(#[trigger] self.blacklist_list()[i]),
            load_delta_keys(self.whitelist_list()) == Ok::<_, SecError>(self.whitelist()),
            load_delta_keys(self.blacklist_list()) == Ok::<_, SecError>(self.blacklist()),
    {
        assert forall|i: int| 0 <= i < self.whitelist_list().len() implies delta_text_parse_defined(#[trigger] self.whitelist_list()[i]) by {
            lemma_key_loads_back(self.whitelist_list()[i]);
        }
        assert forall|i: int| 0 <= i < self.blacklist_list().len() implies delta_text_parse_defined(#[trigger] self.blacklist_list()[i]) by {
            lemma_key_loads_back(self.blacklist_list()[i]);
        }
        lemma_load_keys_of_keys(self.whitelist_list());
        lemma_load_keys_of_keys(self.blacklist_list());
    }

    /// A filter whose lists are the delta keys of the given texts. Fails with
    /// `InvalidDeltaId` when `DeltaId::from` refuses a text.
    pub fn from_config(whitelist: &Vec<String>, blacklist: &Vec<String>) -> (r: Result<DeltaFilter, SecError>)
        requires
            forall|i: int| 0 <= i < whitelist@.len() ==> delta_text_parse_defined(#[trigger] whitelist@[i]@),
            forall|i: int| 0 <= i < blacklist@.len() ==> delta_text_parse_defined(#[trigger] blacklist@[i]@),
        ensures
            r matches Ok(df) ==> df.wf() && load_delta_keys(whitelist@.map_values(|s: String| s@))
                == Ok::<_, SecError>(df.whitelist()) && load_delta_keys(blacklist@.map_values(|s: String| s@))
                == Ok::<_, SecError>(df.blacklist()),
            r is Err ==> load_delta_keys(whitelist@.map_values(|s: String| s@)) is Err || load_delta_keys(
                blacklist@.map_values(|s: String| s@),
            ) is Err,
            r matches Err(e) ==> e == SecError::InvalidDeltaId,
    {
        let mut df = DeltaFilter::new();
        let ghost ws = whitelist@.map_values(|s: String| s@);
        let ghost bs = blacklist@.map_values(|s: String| s@);
        let mut i: usize = 0;
        while i < whitelist.len()
            invariant
                ws == whitelist@.map_values(|s: String| s@),
                forall|j: int| 0 <= j < whitelist@.len() ==> delta_text_parse_defined(#[trigger] whitelist@[j]@),
                i <= whitelist@.len(),
                df.wf(),
                df.blacklist() == Set::<Seq<char>>::empty(),
                load_delta_keys(ws.subrange(0, i as int)) == Ok::<_, SecError>(df.whitelist()),
            decreases whitelist@.len() - i,
        {
            proof {
                assert(ws.subrange(0, i + 1).drop_last() =~= ws.subrange(0, i as int));
                assert(ws[i as int] == whitelist@[i as int]@);
            }
            let id = match DeltaId::from(whitelist[i].as_str()) {
                Ok(id) => id,
                Err(e) => {
                    proof {
                        lemma_load_keys_prefix_error(ws, i as int + 1);
                    }
                    return Err(e);
                },
            };
            let _ = df.add_to_whitelist(&id);
            i = i + 1;
        }
        assert(ws.subrange(0, i as int) =~= ws);
        let mut i: usize = 0;
        while i < blacklist.len()
            invariant
                ws == whitelist@.map_values(|s: String| s@),
                bs == blacklist@.map_values(|s: String| s@),
                forall|j: int| 0 <= j < blacklist@.len() ==> delta_text_parse_defined(#[trigger] blacklist@[j]@),
                i <= blacklist@.len(),
                df.wf(),
                load_delta_keys(ws) == Ok::<_, SecError>(df.whitelist()),
                load_delta_keys(bs.subrange(0, i as int)) == Ok::<_, SecError>(df.blacklist()),
            decreases blacklist@.len() - i,
        {
            proof {
                assert(bs.subrange(0, i + 1).drop_last() =~= bs.subrange(0, i as int));
                assert(bs[i as int] == blacklist@[i as int]@);
            }
            let id = match DeltaId::from(blacklist[i].as_str()) {
                Ok(id) => id,
                Err(e) => {
                    proof {
                        lemma_load_keys_prefix_error(bs, i as int + 1);
                    }
                    return Err(e);
                },
            };
            let _ = df.add_to_blacklist(&id);
            i = i + 1;
        }
        assert(bs.subrange(0, i as int) =~= bs);
        Ok(df)
    }
}

impl Default for DeltaFilter {
    fn default() -> (r: DeltaFilter)
        ensures
            r.wf(),
            r.whitelist() == Set::<Seq<char>>::empty(),
            r.blacklist() == Set::<Seq<char>>::empty(),
    {
        DeltaFilter::new()
    }
}

/// A delta key parses, and loads to itself.
proof fn lemma_key_loads_back(key: Seq<char>)
    requires
        is_delta_key(key),
    ensures
        delta_text_parse_defined(key),
        delta_id_of(key) matches Some((i, d)) && delta_key_text(i, d) == key,
{
    let (i, d) = choose|i: u32, d: Seq<char>| is_word_text(d) && key == #[trigger] delta_key_text(i, d);
    lemma_delta_key_parses(i, d);
}

/// Loading delta keys gives back their set.
proof fn lemma_load_keys_of_keys(ks: Seq<Seq<char>>)
    requires
        forall|i: int| 0 <= i < ks.len() ==> is_delta_key(#[trigger] ks[i]),
    ensures
        load_delta_keys(ks) == Ok::<_, SecError>(ks.to_set()),
    decreases ks.len(),
{
    if ks.len() == 0 {
        assert(ks.to_set() =~= Set::<Seq<char>>::empty());
    } else {
        let pre = ks.drop_last();
        assert forall|i: int| 0 <= i < pre.len() implies is_delta_key(#[trigger] pre[i]) by {
            assert(pre[i] == ks[i]);
        }
        lemma_load_keys_of_keys(pre);
        lemma_key_loads_back(ks.last());
        assert(ks =~= pre.push(ks.last()));
        pre.lemma_push_to_set_commute(ks.last());
    }
}

/// Once loading a prefix fails, loading the whole list fails the same way.
proof fn lemma_load_keys_prefix_error(ts: Seq<Seq<char>>, n: int)
    requires
        0 <= n <= ts.len(),
        load_delta_keys(ts.subrange(0, n)) is Err,
    ensures
        load_delta_keys(ts) == load_delta_keys(ts.subrange(0, n)),
    decreases ts.len() - n,
{
    if n < ts.len() {
        assert(ts.subrange(0, n + 1).drop_last() =~= ts.subrange(0, n));
        lemma_load_keys_prefix_error(ts, n + 1);
    } else {
        assert(ts.subrange(0, n) =~= ts);
    }
}

} // verus!
