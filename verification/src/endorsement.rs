//! Endorsement files: their names, their records, and what fetching them yields.
use vstd::prelude::*;

use crate::bytes::bytes_to_vec;
use crate::crypto::{hex_decode, hex_encode, hex_lower, hex_digit, is_lower_hex_char, is_lower_hex_text};
use crate::deltaid::{
    all_ascii_digits, decimal, delta_extension, delta_key_text, digits_fit, digits_value, is_digit, is_regex_digit,
    is_regex_digit_exec, is_word_char, is_word_text, lemma_decimal_shape, lemma_simple_delta_text, str_to_chars,
    DeltaId,
};
use crate::error::SecError;

verus! {

/// A character of the index part of an endorsement file name (`[\d+]`): a
/// `\d` digit or `+`.
pub open spec fn is_index_char(c: char) -> bool {
    is_regex_digit(c) || c == '+'
}

/// The end of the run of index characters of `s` that starts at `k`.
pub open spec fn index_run_end(s: Seq<char>, k: int) -> int
    decreases s.len() - k,
{
    if 0 <= k < s.len() && is_index_char(s[k]) {
        index_run_end(s, k + 1)
    } else {
        k
    }
}

/// The end of the run of lower-case hex digits of `s` that starts at `k`.
pub open spec fn hex_run_end(s: Seq<char>, k: int) -> int
    decreases s.len() - k,
{
    if 0 <= k < s.len() && is_lower_hex_char(s[k]) {
        hex_run_end(s, k + 1)
    } else {
        k
    }
}

/// The text `.delta.`.
pub open spec fn delta_separator() -> Seq<char> {
    delta_extension().push('.')
}

/// The text `.sig`.
pub open spec fn sig_extension() -> Seq<char> {
    seq!['.', 's', 'i', 'g']
}

/// A match at `i` of the endorsement file name pattern
/// `[\d+]+-[a-f0-9]+\.delta\.[a-f0-9]+`: the end of the index run, of the
/// digest and of the public key.
pub open spec fn endorsement_match_at(s: Seq<char>, i: int) -> Option<(int, int, int)> {
    let j = index_run_end(s, i);
    if j > i && j < s.len() && s[j] == '-' {
        let k = hex_run_end(s, j + 1);
        if k > j + 1 && k + 7 <= s.len() && s.subrange(k, k + 7) == delta_separator() {
            let m = hex_run_end(s, k + 7);
            if m > k + 7 {
                Some((j, k, m))
            } else {
                None
            }
        } else {
            None
        }
    } else {
        None
    }
}

/// The leftmost match of the pattern at or after `i`: its start and its parts.
pub open spec fn endorsement_match_from(s: Seq<char>, i: int) -> Option<(int, int, int, int)>
    decreases s.len() - i,
{
    if i < 0 || i >= s.len() {
        None
    } else {
        match endorsement_match_at(s, i) {
            Some((j, k, m)) => Some((i, j, k, m)),
            None => endorsement_match_from(s, i + 1),
        }
    }
}

/// The leftmost match of the endorsement file name pattern in `s`.
pub open spec fn endorsement_name_match(s: Seq<char>) -> Option<(int, int, int, int)> {
    endorsement_match_from(s, 0)
}

/// The start of the run of `\d` digits that ends at `j`, not before `i`.
pub open spec fn trailing_digits_start(s: Seq<char>, i: int, j: int) -> int
    decreases j - i,
{
    if j > i && is_regex_digit(s[j - 1]) {
        trailing_digits_start(s, i, j - 1)
    } else {
        j
    }
}

/// The names that parsing is defined on here: when the pattern matches, the
/// run of `\d` just before its `-` (the identifier that melda's parser reads
/// from the index part) is not empty, is made of ASCII digits and fits in a
/// `u32`, and the public key has an even number of hex digits. Parsing panics
/// on the other names that match.
pub open spec fn endorsement_name_defined(s: Seq<char>) -> bool {
    match endorsement_name_match(s) {
        None => true,
        Some((i, j, k, m)) => {
            &&& trailing_digits_start(s, i, j) < j
            &&& forall|t: int| trailing_digits_start(s, i, j) <= t < j ==> is_digit(#[trigger] s[t])
            &&& digits_value(s.subrange(trailing_digits_start(s, i, j), j)) <= u32::MAX
            &&& (m - (k + 7)) % 2 == 0
        },
    }
}

/// What an endorsement file name parses to: the delta identifier (the digits
/// just before the `-` of the leftmost match, and its digest) and the public
/// key of that match, when there is one.
pub open spec fn endorsement_name_parse(s: Seq<char>) -> Option<((u32, Seq<char>), Seq<u8>)> {
    match endorsement_name_match(s) {
        None => None,
        Some((i, j, k, m)) => if exists|p: Seq<u8>| hex_lower(p) == s.subrange(k + 7, m) {
            Some(
                (
                    (digits_value(s.subrange(trailing_digits_start(s, i, j), j)) as u32, s.subrange(j + 1, k)),
                    choose|p: Seq<u8>| hex_lower(p) == s.subrange(k + 7, m),
                ),
            )
        } else {
            None
        },
    }
}

/// The name of the endorsement file of a delta by a public key:
/// `<delta key>.<hex public key>.sig`.
pub open spec fn endorsement_file_name(delta: (u32, Seq<char>), pubkey: Seq<u8>) -> Seq<char> {
    delta_key_text(delta.0, delta.1) + seq!['.'] + hex_lower(pubkey) + sig_extension()
}

/// An endorsement of a delta by a public key; it names the endorsement file.
pub struct EndorsementKey(DeltaId, Vec<u8>);

impl View for EndorsementKey {
    type V = ((u32, Seq<char>), Seq<u8>);

    closed spec fn view(&self) -> ((u32, Seq<char>), Seq<u8>) {
        (self.0@, self.1@)
    }
}

fn is_lower_hex_exec(c: char) -> (r: bool)
    ensures
        r == is_lower_hex_char(c),
{
    ('0' <= c && c <= '9') || ('a' <= c && c <= 'f')
}

fn index_run_end_exec(cs: &Vec<char>, k: usize) -> (r: usize)
    requires
        k <= cs@.len(),
    ensures
        r as int == index_run_end(cs@, k as int),
        k <= r <= cs@.len(),
{
    let mut j = k;
    while j < cs.len() && (is_regex_digit_exec(cs[j]) || cs[j] == '+')
        invariant
            k <= j <= cs@.len(),
            index_run_end(cs@, j as int) == index_run_end(cs@, k as int),
        decreases cs@.len() - j,
    {
        j = j + 1;
    }
    j
}

fn hex_run_end_exec(cs: &Vec<char>, k: usize) -> (r: usize)
    requires
        k <= cs@.len(),
    ensures
        r as int == hex_run_end(cs@, k as int),
        k <= r <= cs@.len(),
{
    let mut j = k;
    while j < cs.len() && is_lower_hex_exec(cs[j])
        invariant
            k <= j <= cs@.len(),
            hex_run_end(cs@, j as int) == hex_run_end(cs@, k as int),
        decreases cs@.len() - j,
    {
        j = j + 1;
    }
    j
}

fn has_delta_separator(cs: &Vec<char>, k: usize) -> (r: bool)
    requires
        k + 7 <= cs@.len(),
    ensures
        r == (cs@.subrange(k as int, k + 7) == delta_separator()),
{
    let n = cs.len();
    let r = cs[k] == '.' && cs[k + 1] == 'd' && cs[k + 2] == 'e' && cs[k + 3] == 'l' && cs[k + 4] == 't'
        && cs[k + 5] == 'a' && cs[k + 6] == '.';
    proof {
        if r {
            assert(cs@.subrange(k as int, k + 7) =~= delta_separator());
        } else if cs@.subrange(k as int, k + 7) == delta_separator() {
            assert(cs@.subrange(k as int, k + 7)[0] == '.');
            assert(cs@.subrange(k as int, k + 7)[1] == 'd');
            assert(cs@.subrange(k as int, k + 7)[2] == 'e');
            assert(cs@.subrange(k as int, k + 7)[3] == 'l');
            assert(cs@.subrange(k as int, k + 7)[4] == 't');
            assert(cs@.subrange(k as int, k + 7)[5] == 'a');
            assert(cs@.subrange(k as int, k + 7)[6] == '.');
        }
    }
    r
}

fn match_at_exec(cs: &Vec<char>, i: usize) -> (r: Option<(usize, usize, usize)>)
    requires
        i < cs@.len(),
    ensures
        match r {
            Some((j, k, m)) => endorsement_match_at(cs@, i as int) == Some((j as int, k as int, m as int)),
            None => endorsement_match_at(cs@, i as int) is None,
        },
{
    let j = index_run_end_exec(cs, i);
    if !(j > i && j < cs.len() && cs[j] == '-') {
        return None;
    }
    let k = hex_run_end_exec(cs, j + 1);
    if !(k > j + 1 && k < cs.len() && cs.len() - k >= 7) {
        return None;
    }
    if !has_delta_separator(cs, k) {
        return None;
    }
    let m = hex_run_end_exec(cs, k + 7);
    if m > k + 7 {
        Some((j, k, m))
    } else {
        None
    }
}

/// The start of the run of digits of `cs` that ends at `j`, not before `i`.
fn trailing_digits_start_exec(cs: &Vec<char>, i: usize, j: usize) -> (r: usize)
    requires
        i <= j <= cs@.len(),
    ensures
        r == trailing_digits_start(cs@, i as int, j as int),
        i <= r <= j,
        forall|t: int| r <= t < j ==> is_regex_digit(#[trigger] cs@[t]),
{
    let mut l = j;
    while l > i && is_regex_digit_exec(cs[l - 1])
        invariant
            i <= l <= j <= cs@.len(),
            trailing_digits_start(cs@, i as int, j as int) == trailing_digits_start(cs@, i as int, l as int),
            forall|t: int| l <= t < j ==> is_regex_digit(#[trigger] cs@[t]),
        decreases l - i,
    {
        l = l - 1;
    }
    l
}

impl EndorsementKey {
    /// The endorsement of `delta_id` by `pubkey`.
    pub fn new(delta_id: DeltaId, pubkey: Vec<u8>) -> (r: EndorsementKey)
        ensures
            r@ == (delta_id@, pubkey@),
            delta_id.wf() ==> r.wf(),
    {
        EndorsementKey(delta_id, pubkey)
    }

    /// The delta identifier is well formed.
    pub closed spec fn wf(&self) -> bool {
        self.0.wf()
    }

    /// The name of the endorsement file: `<delta key>.<hex public key>.sig`.
    pub fn file_name(&self) -> (r: String)
        ensures
            r@ == endorsement_file_name(self@.0, self@.1),
    {
        let s = self.0.key();
        let s = s.concat(".");
        let hex = hex_encode(self.1.as_slice());
        let s = s.concat(hex.as_str());
        let r = s.concat(".sig");
        proof {
            reveal_strlit(".");
            reveal_strlit(".sig");
            assert(r@ =~= endorsement_file_name(self@.0, self@.1));
        }
        r
    }

    /// The endorsed delta.
    pub fn delta_id(&self) -> (r: &DeltaId)
        ensures
            r@ == self@.0,
            self.wf() ==> r.wf(),
    {
        &self.0
    }

    /// The endorsing public key.
    pub fn pubkey(&self) -> (r: &Vec<u8>)
        ensures
            r@ == self@.1,
    {
        &self.1
    }

    /// Whether parsing `s` is defined here (see `endorsement_name_defined`).
    pub fn is_parsable(s: &str) -> (r: bool)
        ensures
            r == endorsement_name_defined(s@),
    {
        let cs = str_to_chars(s);
        match Self::find_match(&cs) {
            None => true,
            Some((i, j, k, m)) => {
                proof {
                    lemma_match_bounds(s@, 0);
                }
                let l = trailing_digits_start_exec(&cs, i, j);
                if l == j {
                    return false;
                }
                if !all_ascii_digits(&cs, l, j) {
                    return false;
                }
                if !digits_fit(&cs, l, j) {
                    return false;
                }
                (m - (k + 7)) % 2 == 0
            },
        }
    }

    fn find_match(cs: &Vec<char>) -> (r: Option<(usize, usize, usize, usize)>)
        ensures
            match r {
                Some((i, j, k, m)) => endorsement_name_match(cs@) == Some((i as int, j as int, k as int, m as int)),
                None => endorsement_name_match(cs@) is None,
            },
    {
        let mut i: usize = 0;
        while i < cs.len()
            invariant
                i <= cs@.len(),
                endorsement_match_from(cs@, 0) == endorsement_match_from(cs@, i as int),
            decreases cs@.len() - i,
        {
            match match_at_exec(cs, i) {
                Some((j, k, m)) => {
                    return Some((i, j, k, m));
                },
                None => {},
            }
            i = i + 1;
        }
        None
    }

    /// Parses an endorsement file name: the leftmost match of
    /// `[0-9+]+-[a-f0-9]+\.delta\.[a-f0-9]+` gives the delta identifier (as
    /// melda's parser reads its index part: the digits just before the `-`) and
    /// the public key. Fails with `InvalidEndorsementKey` when nothing matches.
    pub fn from(s: &str) -> (r: Result<EndorsementKey, SecError>)
        requires
            endorsement_name_defined(s@),
        ensures
            r is Ok <==> endorsement_name_match(s@) is Some,
            r matches Err(e) ==> e == SecError::InvalidEndorsementKey,
            r matches Ok(key) ==> key.wf(),
            r matches Ok(key) ==> endorsement_name_parse(s@) == Some(key@),
            r is Err ==> endorsement_name_parse(s@) is None,
    {
        let cs = str_to_chars(s);
        match Self::find_match(&cs) {
            None => Err(SecError::InvalidEndorsementKey),
            Some((i, j, k, m)) => {
                proof {
                    lemma_match_bounds(s@, 0);
                }
                proof {
                    lemma_index_run(s@, i as int);
                }
                let l = trailing_digits_start_exec(&cs, i, j);
                let ghost d = s@.subrange(l as int, j as int);
                let ghost w = s@.subrange(j + 1, k as int);
                let delta_text = s.substring_char(l, k);
                let hex_text = s.substring_char(k + 7, m);
                proof {
                    assert forall|t: int| 0 <= t < d.len() implies is_digit(#[trigger] d[t]) by {
                        assert(d[t] == s@[l + t]);
                    }
                    lemma_hex_run(s@, j + 1);
                    lemma_hex_run(s@, k + 7);
                    assert(is_word_text(w)) by {
                        assert forall|t: int| 0 <= t < w.len() implies is_word_char(#[trigger] w[t]) by {
                            assert(w[t] == s@[j + 1 + t]);
                        }
                    }
                    assert(delta_text@ =~= d + seq!['-'] + w + Seq::<char>::empty());
                    lemma_simple_delta_text(d, w, Seq::<char>::empty());
                    assert(is_lower_hex_text(hex_text@)) by {
                        assert forall|t: int| 0 <= t < hex_text@.len() implies is_lower_hex_char(#[trigger] hex_text@[t]) by {
                            assert(hex_text@[t] == s@[k + 7 + t]);
                        }
                    }
                }
                let delta_id = match DeltaId::from(delta_text) {
                    Ok(id) => id,
                    Err(e) => return Err(e),
                };
                let pubkey = match hex_decode(hex_text) {
                    Some(b) => b,
                    None => return Err(SecError::InvalidEndorsementKey),
                };
                proof {
                    let sub = s@.subrange(k + 7, m as int);
                    assert(hex_lower(pubkey@) == sub);
                    let p = choose|p: Seq<u8>| hex_lower(p) == sub;
                    lemma_hex_lower(p, pubkey@);
                }
                Ok(EndorsementKey(delta_id, pubkey))
            },
        }
    }

    /// A copy of the key.
    pub fn copy(&self) -> (r: EndorsementKey)
        ensures
            r@ == self@,
            self.wf() ==> r.wf(),
    {
        EndorsementKey(self.0.copy(), bytes_to_vec(self.1.as_slice()))
    }
}

/// A lower-case hex digit of a value below 16, and distinct values give distinct digits.
proof fn lemma_hex_digit(v: int, w: int)
    requires
        0 <= v < 16,
        0 <= w < 16,
    ensures
        is_lower_hex_char(hex_digit(v)),
        hex_digit(v) == hex_digit(w) ==> v == w,
{
    if v < 10 {
        assert(hex_digit(v) as int == '0' as int + v);
    } else {
        assert(hex_digit(v) as int == 'a' as int + v - 10);
    }
    if w < 10 {
        assert(hex_digit(w) as int == '0' as int + w);
    } else {
        assert(hex_digit(w) as int == 'a' as int + w - 10);
    }
}

/// The hex encoding has two lower-case hex digits per byte, and different
/// bytes have different encodings.
pub proof fn lemma_hex_lower(a: Seq<u8>, b: Seq<u8>)
    ensures
        hex_lower(a).len() == 2 * a.len(),
        forall|t: int| 0 <= t < hex_lower(a).len() ==> is_lower_hex_char(#[trigger] hex_lower(a)[t]),
        hex_lower(a) == hex_lower(b) ==> a == b,
    decreases a.len(),
{
    if a.len() > 0 {
        lemma_hex_lower(a.drop_first(), a.drop_first());
        lemma_hex_digit(a[0] as int / 16, a[0] as int / 16);
        lemma_hex_digit(a[0] as int % 16, a[0] as int % 16);
        let h = hex_lower(a);
        let rest = hex_lower(a.drop_first());
        assert forall|t: int| 0 <= t < h.len() implies is_lower_hex_char(#[trigger] h[t]) by {
            if t >= 2 {
                assert(h[t] == rest[t - 2]);
            }
        }
        if hex_lower(a) == hex_lower(b) {
            if b.len() == 0 {
                assert(hex_lower(b).len() == 0);
            } else {
                lemma_hex_lower(a.drop_first(), b.drop_first());
                lemma_hex_digit(a[0] as int / 16, b[0] as int / 16);
                lemma_hex_digit(a[0] as int % 16, b[0] as int % 16);
                assert(hex_lower(a)[0] == hex_lower(b)[0]);
                assert(hex_lower(a)[1] == hex_lower(b)[1]);
                assert(a[0] as int == (a[0] as int / 16) * 16 + a[0] as int % 16);
                assert(b[0] as int == (b[0] as int / 16) * 16 + b[0] as int % 16);
                assert(hex_lower(a.drop_first()) =~= hex_lower(a).subrange(2, hex_lower(a).len() as int));
                assert(hex_lower(b.drop_first()) =~= hex_lower(b).subrange(2, hex_lower(b).len() as int));
                assert(a =~= seq![a[0]] + a.drop_first());
                assert(b =~= seq![b[0]] + b.drop_first());
            }
        }
    } else {
        if hex_lower(a) == hex_lower(b) && b.len() > 0 {
            assert(hex_lower(b).len() >= 2);
        }
    }
}

proof fn lemma_index_run_exact(s: Seq<char>, k: int, e: int)
    requires
        0 <= k <= e <= s.len(),
        forall|t: int| k <= t < e ==> is_index_char(#[trigger] s[t]),
        e == s.len() || !is_index_char(s[e]),
    ensures
        index_run_end(s, k) == e,
    decreases e - k,
{
    if k < e {
        lemma_index_run_exact(s, k + 1, e);
    }
}

proof fn lemma_hex_run_exact(s: Seq<char>, k: int, e: int)
    requires
        0 <= k <= e <= s.len(),
        forall|t: int| k <= t < e ==> is_lower_hex_char(#[trigger] s[t]),
        e == s.len() || !is_lower_hex_char(s[e]),
    ensures
        hex_run_end(s, k) == e,
    decreases e - k,
{
    if k < e {
        lemma_hex_run_exact(s, k + 1, e);
    }
}

/// The name of an endorsement file parses back into its delta identifier and
/// public key, when the digest is lower-case hex (as melda's digests are) and
/// the public key is not empty.
pub proof fn lemma_endorsement_name_roundtrip(index: u32, digest: Seq<char>, pubkey: Seq<u8>)
    requires
        digest.len() > 0,
        forall|t: int| 0 <= t < digest.len() ==> is_lower_hex_char(#[trigger] digest[t]),
        pubkey.len() > 0,
    ensures
        endorsement_name_defined(endorsement_file_name((index, digest), pubkey)),
        endorsement_name_parse(endorsement_file_name((index, digest), pubkey)) == Some(((index, digest), pubkey)),
{
    lemma_decimal_shape(index as nat);
    lemma_hex_lower(pubkey, pubkey);
    assert forall|b: Seq<u8>| #[trigger] hex_lower(b) == hex_lower(pubkey) implies b == pubkey by {
        lemma_hex_lower(pubkey, b);
    }
    let dec = decimal(index as nat);
    let hx = hex_lower(pubkey);
    let s = endorsement_file_name((index, digest), pubkey);
    let a = dec.len() as int;
    let k = a + 1 + digest.len();
    let m = k + 7 + hx.len();
    assert(s =~= dec + seq!['-'] + digest + delta_separator() + hx + sig_extension());
    assert forall|t: int| 0 <= t < a implies is_index_char(#[trigger] s[t]) by {
        assert(s[t] == dec[t]);
    }
    lemma_index_run_exact(s, 0, a);
    assert forall|t: int| a + 1 <= t < k implies is_lower_hex_char(#[trigger] s[t]) by {
        assert(s[t] == digest[t - a - 1]);
    }
    assert(s[k] == '.');
    lemma_hex_run_exact(s, a + 1, k);
    assert(s.subrange(k, k + 7) =~= delta_separator());
    assert forall|t: int| k + 7 <= t < m implies is_lower_hex_char(#[trigger] s[t]) by {
        assert(s[t] == hx[t - k - 7]);
    }
    assert(s[m] == '.');
    lemma_hex_run_exact(s, k + 7, m);
    assert(endorsement_match_at(s, 0) == Some((a, k, m)));
    assert(s.subrange(0, a) =~= dec);
    assert(s.subrange(a + 1, k) =~= digest);
    assert(s.subrange(k + 7, m) =~= hx);
    assert forall|t: int| 0 <= t < a implies is_digit(#[trigger] s[t]) by {
        assert(s[t] == dec[t]);
    }
    lemma_trailing_digits_exact(s, 0, a, 0);
    let p = choose|p: Seq<u8>| hex_lower(p) == s.subrange(k + 7, m);
    lemma_hex_lower(pubkey, p);
}

/// A run of `\d` that ends at `j` and starts at `l` (at `i`, or after a
/// character that is not one) is the trailing run.
proof fn lemma_trailing_digits_exact(s: Seq<char>, i: int, j: int, l: int)
    requires
        i <= l <= j,
        forall|t: int| l <= t < j ==> is_regex_digit(#[trigger] s[t]),
        l == i || !is_regex_digit(s[l - 1]),
    ensures
        trailing_digits_start(s, i, j) == l,
    decreases j - l,
{
    if l < j {
        lemma_trailing_digits_exact(s, i, j - 1, l);
    }
}

/// The parts of a match are in order and inside the name.
proof fn lemma_match_bounds(s: Seq<char>, i0: int)
    requires
        0 <= i0,
        endorsement_match_from(s, i0) is Some,
    ensures
        endorsement_match_from(s, i0) matches Some((i, j, k, m)) && i0 <= i < j < k && k + 7 < m <= s.len()
            && endorsement_match_at(s, i) == Some((j, k, m)),
    decreases s.len() - i0,
{
    if endorsement_match_at(s, i0) is Some {
        lemma_index_run(s, i0);
        let j = index_run_end(s, i0);
        lemma_hex_run(s, j + 1);
        let k = hex_run_end(s, j + 1);
        lemma_hex_run(s, k + 7);
    } else {
        lemma_match_bounds(s, i0 + 1);
    }
}

/// Every character of an index run is an index character.
proof fn lemma_index_run(s: Seq<char>, k: int)
    requires
        0 <= k,
    ensures
        index_run_end(s, k) >= k,
        k <= s.len() ==> index_run_end(s, k) <= s.len(),
        forall|t: int| k <= t < index_run_end(s, k) ==> is_index_char(#[trigger] s[t]) && t < s.len(),
    decreases s.len() - k,
{
    if 0 <= k < s.len() && is_index_char(s[k]) {
        lemma_index_run(s, k + 1);
    }
}

/// Every character of a hex run is a lower-case hex digit.
proof fn lemma_hex_run(s: Seq<char>, k: int)
    requires
        0 <= k,
    ensures
        hex_run_end(s, k) >= k,
        k <= s.len() ==> hex_run_end(s, k) <= s.len(),
        forall|t: int| k <= t < hex_run_end(s, k) ==> is_lower_hex_char(#[trigger] s[t]) && t < s.len(),
    decreases s.len() - k,
{
    if 0 <= k < s.len() && is_lower_hex_char(s[k]) {
        lemma_hex_run(s, k + 1);
    }
}

} // verus!
