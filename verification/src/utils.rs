use vstd::prelude::*;

use crate::deltaid::delta_extension;
use crate::error::SecError;
use crate::json::{
    json_as_array, json_as_str, json_at, json_decode, json_get, json_parse, json_subtree, json_tree,
    lemma_subtree_at, JsonNode, JsonStep, JsonTree,
};

verus! {

/// The key under which the signature of the object stored at `key` is kept.
pub fn sig_key(key: &str) -> (r: String)
    ensures
        r@ == key@ + ".sig"@,
{
    let s = String::from_str(key);
    s.concat(".sig")
}

/// The result of reading `length` bytes at `offset` of an object: the whole
/// object when both are 0, otherwise the slice, which must lie inside it.
pub open spec fn object_slice(data: Seq<u8>, offset: nat, length: nat) -> Result<Seq<u8>, SecError> {
    if offset == 0 && length == 0 {
        Ok(data)
    } else if offset + length > data.len() {
        Err(SecError::InvalidSlice)
    } else {
        Ok(data.subrange(offset as int, (offset + length) as int))
    }
}

/// The view of a byte result.
pub open spec fn bytes_result_view(r: Result<Vec<u8>, SecError>) -> Result<Seq<u8>, SecError> {
    match r {
        Ok(v) => Ok(v@),
        Err(e) => Err(e),
    }
}

/// Reads `length` bytes at `offset` of `data`; the whole object when both are 0.
pub fn read_slice(data: Vec<u8>, offset: usize, length: usize) -> (r: Result<Vec<u8>, SecError>)
    requires
        offset + length <= usize::MAX,
    ensures
        bytes_result_view(r) == object_slice(data@, offset as nat, length as nat),
{
    if offset == 0 && length == 0 {
        Ok(data)
    } else if offset + length > data.len() {
        Err(SecError::InvalidSlice)
    } else {
        let mut out: Vec<u8> = Vec::new();
        let mut i = offset;
        let end = offset + length;
        while i < end
            invariant
                end == offset + length,
                offset <= i <= offset + length,
                offset + length <= data@.len(),
                out@ == data@.subrange(offset as int, i as int),
            decreases offset + length - i,
        {
            out.push(data[i]);
            i = i + 1;
            assert(out@ =~= data@.subrange(offset as int, i as int));
        }
        Ok(out)
    }
}

/// Whether `key` names a delta: it ends with `.delta`.
pub open spec fn is_delta_key_name(key: Seq<char>) -> bool {
    key.len() >= 6 && key.subrange(key.len() - 6, key.len() as int) == delta_extension()
}

/// Whether `key` ends with `.delta`.
pub fn ends_with_delta(key: &str) -> (r: bool)
    ensures
        r == is_delta_key_name(key@),
{
    let n = key.unicode_len();
    if n < 6 {
        return false;
    }
    let r = key.get_char(n - 6) == '.' && key.get_char(n - 5) == 'd' && key.get_char(n - 4) == 'e'
        && key.get_char(n - 3) == 'l' && key.get_char(n - 2) == 't' && key.get_char(n - 1) == 'a';
    proof {
        let tail = key@.subrange(n - 6, n as int);
        if r {
            assert(tail =~= delta_extension());
        } else if tail == delta_extension() {
            assert(tail[0] == '.');
            assert(tail[1] == 'd');
            assert(tail[2] == 'e');
            assert(tail[3] == 'l');
            assert(tail[4] == 't');
            assert(tail[5] == 'a');
        }
    }
    r
}

/// The member of a delta that lists its change records.
pub open spec fn changes_member() -> Seq<char> {
    seq!['c']
}

/// The path of the `i`-th change record of a delta.
pub open spec fn change_path(i: nat) -> Seq<JsonStep> {
    seq![JsonStep::Key(changes_member()), JsonStep::Index(i)]
}

/// The object identifiers of the first `n` change records: a record
/// contributes its first element when it is a non-empty array whose first
/// element is a string; other records contribute nothing.
pub open spec fn change_ids_upto(t: JsonTree, n: nat) -> Seq<Seq<char>>
    decreases n,
{
    if n == 0 {
        seq![]
    } else {
        let prev = change_ids_upto(t, (n - 1) as nat);
        let cp = change_path((n - 1) as nat);
        match (json_at(t, cp), json_at(t, cp.push(JsonStep::Index(0)))) {
            (Some(JsonNode::Array(m)), Some(JsonNode::Str(s))) => if m > 0 {
                prev.push(s)
            } else {
                prev
            },
            _ => prev,
        }
    }
}

/// The identifiers of the objects that a delta creates or modifies: for a
/// delta that is a JSON object whose member `c` is an array, those of its
/// change records; nothing otherwise.
pub open spec fn created_and_modified_ids(data: Seq<u8>) -> Seq<Seq<char>> {
    match json_decode(data) {
        None => seq![],
        Some(t) => match json_at(t, seq![JsonStep::Key(changes_member())]) {
            Some(JsonNode::Array(n)) => if json_at(t, seq![]) == Some(JsonNode::Object) {
                change_ids_upto(t, n)
            } else {
                seq![]
            },
            _ => seq![],
        },
    }
}

/// The identifiers of the objects that a delta creates or modifies, in the
/// order of its change records.
pub fn extract_created_and_modified_object_ids(data: &[u8]) -> (r: Vec<String>)
    ensures
        r@.map_values(|s: String| s@) == created_and_modified_ids(data@),
{
    let mut result: Vec<String> = Vec::new();
    let parsed = match json_parse(data) {
        Some(v) => v,
        None => {
            assert(result@.map_values(|s: String| s@) =~= Seq::<Seq<char>>::empty());
            return result;
        },
    };
    let ghost t = json_tree(parsed);
    let c = "c";
    proof {
        reveal_strlit("c");
        assert(c@ =~= changes_member());
    }
    let changes = match json_get(&parsed, c) {
        Some(v) => v,
        None => {
            assert(result@.map_values(|s: String| s@) =~= Seq::<Seq<char>>::empty());
            return result;
        },
    };
    let ghost ct = json_tree(*changes);
    proof {
        lemma_subtree_at(t, JsonStep::Key(changes_member()), seq![]);
        assert(seq![JsonStep::Key(changes_member())] + Seq::<JsonStep>::empty() =~= seq![
            JsonStep::Key(changes_member()),
        ]);
    }
    let arr = match json_as_array(changes) {
        Some(a) => a,
        None => {
            assert(result@.map_values(|s: String| s@) =~= Seq::<Seq<char>>::empty());
            return result;
        },
    };
    let mut i: usize = 0;
    assert(result@.map_values(|s: String| s@) =~= Seq::<Seq<char>>::empty());
    while i < arr.len()
        invariant
            t == json_tree(parsed),
            ct == json_tree(*changes),
            ct == json_subtree(t, JsonStep::Key(changes_member())),
            forall|j: int| 0 <= j < arr@.len() ==> json_tree(#[trigger] arr@[j]) == json_subtree(
                ct,
                JsonStep::Index(j as nat),
            ),
            i <= arr@.len(),
            result@.map_values(|s: String| s@) == change_ids_upto(t, i as nat),
        decreases arr@.len() - i,
    {
        let entry = &arr[i];
        let ghost et = json_tree(*entry);
        let ghost cp = change_path(i as nat);
        proof {
            assert(et == json_subtree(ct, JsonStep::Index(i as nat)));
            lemma_subtree_at(ct, JsonStep::Index(i as nat), seq![]);
            lemma_subtree_at(t, JsonStep::Key(changes_member()), seq![JsonStep::Index(i as nat)]);
            assert(seq![JsonStep::Index(i as nat)] + Seq::<JsonStep>::empty() =~= seq![JsonStep::Index(i as nat)]);
            assert(seq![JsonStep::Key(changes_member())] + seq![JsonStep::Index(i as nat)] =~= cp);
            assert(json_at(et, seq![]) == json_at(t, cp));
            lemma_subtree_at(et, JsonStep::Index(0), seq![]);
            lemma_subtree_at(ct, JsonStep::Index(i as nat), seq![JsonStep::Index(0)]);
            lemma_subtree_at(t, JsonStep::Key(changes_member()), seq![JsonStep::Index(i as nat), JsonStep::Index(0)]);
            assert(seq![JsonStep::Index(0)] + Seq::<JsonStep>::empty() =~= seq![JsonStep::Index(0)]);
            assert(seq![JsonStep::Index(i as nat)] + seq![JsonStep::Index(0)] =~= seq![
                JsonStep::Index(i as nat),
                JsonStep::Index(0),
            ]);
            assert(seq![JsonStep::Key(changes_member())] + seq![JsonStep::Index(i as nat), JsonStep::Index(0)]
                =~= cp.push(JsonStep::Index(0)));
            assert(json_at(et, seq![JsonStep::Index(0)]) == json_at(t, cp.push(JsonStep::Index(0))));
        }
        let ghost before = result@;
        match json_as_array(entry) {
            Some(record) => {
                if record.len() > 0 {
                    match json_as_str(&record[0]) {
                        Some(s) => {
                            let id = String::from_str(s);
                            result.push(id);
                            proof {
                                before.lemma_push_map_commute(|s: String| s@, id);
                            }
                        },
                        None => {},
                    }
                }
            },
            None => {},
        }
        i = i + 1;
    }
    result
}

} // verus!
