//! Delta identifiers: an index and a digest, written `<index>-<digest>.delta`.
use vstd::prelude::*;

verus! {

/// Whether `c` is an ASCII decimal digit.
pub open spec fn is_digit(c: char) -> bool {
    '0' <= c <= '9'
}

/// Whether the regex crate's `\d` (Unicode decimal digits) takes `c`.
pub uninterp spec fn regex_decimal_digit(c: char) -> bool;

/// Whether the regex crate's `\w` (Unicode word characters) takes `c`.
pub uninterp spec fn regex_word_char(c: char) -> bool;

/// Calls the regex crate (`^\d$`): whether `\d` takes the character `c`.
#[verifier::external_body]
fn regex_digit(c: char) -> (r: bool)
    ensures
        r == regex_decimal_digit(c),
{
    match regex::Regex::new(r"^\d$") {
        Ok(re) => {
            let mut buf = [0u8; 4];
            re.is_match(c.encode_utf8(&mut buf))
        },
        Err(_) => false,
    }
}

/// Calls the regex crate (`^\w$`): whether `\w` takes the character `c`.
#[verifier::external_body]
fn regex_word(c: char) -> (r: bool)
    ensures
        r == regex_word_char(c),
{
    match regex::Regex::new(r"^\w$") {
        Ok(re) => {
            let mut buf = [0u8; 4];
            re.is_match(c.encode_utf8(&mut buf))
        },
        Err(_) => false,
    }
}

/// Whether the regex class `\d` takes `c`: within ASCII exactly `0`-`9`,
/// outside ASCII the Unicode decimal digits.
pub open spec fn is_regex_digit(c: char) -> bool {
    is_digit(c) || (c > '\u{7f}' && regex_decimal_digit(c))
}

/// Whether the regex class `\w` takes `c`: within ASCII a letter, a digit or
/// `_`, outside ASCII the Unicode word characters.
pub open spec fn is_word_char(c: char) -> bool {
    ('0' <= c <= '9') || ('a' <= c <= 'z') || ('A' <= c <= 'Z') || c == '_' || (c > '\u{7f}'
        && regex_word_char(c))
}

/// Whether `s` is a non-empty run of word characters.
pub open spec fn is_word_text(s: Seq<char>) -> bool {
    s.len() > 0 && forall|i: int| 0 <= i < s.len() ==> is_word_char(#[trigger] s[i])
}

/// The value of a run of decimal digits.
pub open spec fn digits_value(s: Seq<char>) -> nat
    decreases s.len(),
{
    if s.len() == 0 {
        0
    } else {
        digits_value(s.drop_last()) * 10 + ((s.last() as int - '0' as int) as nat)
    }
}

/// The character of a decimal digit.
pub open spec fn digit_char(d: nat) -> char {
    ((d + '0' as nat) as char)
}

/// The decimal representation of `n`, without leading zeros.
pub open spec fn decimal(n: nat) -> Seq<char>
    decreases n,
{
    if n < 10 {
        seq![digit_char(n)]
    } else {
        decimal(n / 10).push(digit_char(n % 10))
    }
}

/// The text `.delta`.
pub open spec fn delta_extension() -> Seq<char> {
    seq!['.', 'd', 'e', 'l', 't', 'a']
}

/// The key of a delta: `<index>-<digest>.delta`.
pub open spec fn delta_key_text(index: u32, digest: Seq<char>) -> Seq<char> {
    decimal(index as nat) + seq!['-'] + digest + delta_extension()
}

/// The end of the run of `\d` characters of `s` that starts at `k`.
pub open spec fn digit_run_end(s: Seq<char>, k: int) -> int
    decreases s.len() - k,
{
    if 0 <= k < s.len() && is_regex_digit(s[k]) {
        digit_run_end(s, k + 1)
    } else {
        k
    }
}

/// The end of the run of `\w` characters of `s` that starts at `k`.
pub open spec fn word_run_end(s: Seq<char>, k: int) -> int
    decreases s.len() - k,
{
    if 0 <= k < s.len() && is_word_char(s[k]) {
        word_run_end(s, k + 1)
    } else {
        k
    }
}

/// Whether melda's pattern `\d+-\w+` can match from `a`: a maximal run of `\d`
/// starts there and is followed by `-` and a `\w`. Gives the end of the run.
pub open spec fn index_run_at(s: Seq<char>, a: int) -> Option<int> {
    if 0 <= a < s.len() && is_regex_digit(s[a]) && (a == 0 || !is_regex_digit(s[a - 1])) {
        let b = digit_run_end(s, a);
        if b + 1 < s.len() && s[b] == '-' && is_word_char(s[b + 1]) {
            Some(b)
        } else {
            None
        }
    } else {
        None
    }
}

/// The first place at or after `i` where melda's pattern matches, as its index
/// run: the start of its leftmost match.
pub open spec fn first_index_run_from(s: Seq<char>, i: int) -> Option<(int, int)>
    decreases s.len() - i,
{
    if i < 0 || i >= s.len() {
        None
    } else {
        match index_run_at(s, i) {
            Some(b) => Some((i, b)),
            None => first_index_run_from(s, i + 1),
        }
    }
}

/// The texts on which melda's parser does not panic: when the pattern matches,
/// the index of its leftmost match is made of ASCII digits and fits in a `u32`.
pub open spec fn delta_text_parse_defined(s: Seq<char>) -> bool {
    match first_index_run_from(s, 0) {
        None => true,
        Some((a, b)) => {
            &&& forall|t: int| a <= t < b ==> is_digit(#[trigger] s[t])
            &&& digits_value(s.subrange(a, b)) <= u32::MAX
        },
    }
}

/// What melda's parser reads from a text: the index and the digest of the
/// leftmost match of `\d+-\w+`, the digest being the longest run of `\w`.
pub open spec fn delta_text_parse(text: Seq<char>) -> Option<(u32, Seq<char>)> {
    match first_index_run_from(text, 0) {
        None => None,
        Some((a, b)) => Some(
            (digits_value(text.subrange(a, b)) as u32, text.subrange(b + 1, word_run_end(text, b + 1))),
        ),
    }
}

/// The identifier that `DeltaId::from` gives for a text.
pub open spec fn delta_id_of(text: Seq<char>) -> Option<(u32, Seq<char>)> {
    delta_text_parse(text)
}

/// Calls melda's `DeltaId::from`: the regex `(?P<index>\d+)-(?P<digest>\w+)(\.delta)?`,
/// whose leftmost match starts at the first maximal run of `\d` followed by `-`
/// and a `\w`, and whose digest is the longest run of `\w` after the `-`; then
/// a `u32` parse of the index, which panics on non-ASCII digits or on overflow
/// (`requires` keeps those texts out). No match gives `None`.
#[verifier::external_body]
fn melda_parse_delta_id(text: &str) -> (r: Option<(u32, String)>)
    requires
        delta_text_parse_defined(text@),
    ensures
        match r {
            Some((i, d)) => delta_text_parse(text@) == Some((i, d@)),
            None => delta_text_parse(text@) is None,
        },
{
    match melda::melda::DeltaId::from(text) {
        Ok(d) => Some((d.index(), d.digest().clone())),
        Err(_) => None,
    }
}

pub proof fn lemma_decimal_shape(n: nat)
    ensures
        decimal(n).len() >= 1,
        forall|k: int| 0 <= k < decimal(n).len() ==> is_digit(#[trigger] decimal(n)[k]),
        digits_value(decimal(n)) == n,
    decreases n,
{
    assert(digit_char(n % 10) as int == (n % 10) + 48);
    if n < 10 {
        assert(digit_char(n) as int == n + 48);
        assert(decimal(n).drop_last() =~= Seq::<char>::empty());
        assert(decimal(n).last() == digit_char(n));
        assert(digits_value(Seq::<char>::empty()) == 0);
    } else {
        lemma_decimal_shape(n / 10);
        let d = decimal(n);
        assert(d.drop_last() =~= decimal(n / 10));
        assert(d.last() == digit_char(n % 10));
        assert(digits_value(d) == digits_value(decimal(n / 10)) * 10 + (n % 10));
        assert forall|k: int| 0 <= k < d.len() implies is_digit(#[trigger] d[k]) by {
            if k < d.len() - 1 {
                assert(d[k] == decimal(n / 10)[k]);
            }
        }
    }
}

/// A run of `\d` from `k` that ends at `e` (before a character that is not one,
/// or at the end) ends there.
proof fn lemma_digit_run_exact(s: Seq<char>, k: int, e: int)
    requires
        0 <= k <= e <= s.len(),
        forall|t: int| k <= t < e ==> is_regex_digit(#[trigger] s[t]),
        e == s.len() || !is_regex_digit(s[e]),
    ensures
        digit_run_end(s, k) == e,
    decreases e - k,
{
    if k < e {
        lemma_digit_run_exact(s, k + 1, e);
    }
}

/// A run of `\w` from `k` that ends at `e` ends there.
proof fn lemma_word_run_exact(s: Seq<char>, k: int, e: int)
    requires
        0 <= k <= e <= s.len(),
        forall|t: int| k <= t < e ==> is_word_char(#[trigger] s[t]),
        e == s.len() || !is_word_char(s[e]),
    ensures
        word_run_end(s, k) == e,
    decreases e - k,
{
    if k < e {
        lemma_word_run_exact(s, k + 1, e);
    }
}

/// The characters of a run of `\w` are word characters, and the run ends inside the text.
proof fn lemma_word_run(s: Seq<char>, k: int)
    requires
        0 <= k <= s.len(),
    ensures
        k <= word_run_end(s, k) <= s.len(),
        forall|t: int| k <= t < word_run_end(s, k) ==> is_word_char(#[trigger] s[t]),
    decreases s.len() - k,
{
    if k < s.len() && is_word_char(s[k]) {
        lemma_word_run(s, k + 1);
    }
}

/// The digest that melda's parser reads is a non-empty run of word characters.
pub proof fn lemma_parsed_digest_is_word(s: Seq<char>)
    requires
        delta_text_parse(s) is Some,
    ensures
        delta_text_parse(s) matches Some((i, d)) && is_word_text(d),
{
    lemma_first_run_bounds(s, 0);
    match first_index_run_from(s, 0) {
        Some((a, b)) => {
            lemma_word_run(s, b + 1);
            lemma_word_run(s, b + 2);
            assert(word_run_end(s, b + 1) == word_run_end(s, b + 2));
            let d = s.subrange(b + 1, word_run_end(s, b + 1));
            assert forall|t: int| 0 <= t < d.len() implies is_word_char(#[trigger] d[t]) by {
                assert(d[t] == s[b + 1 + t]);
            }
        },
        None => {},
    }
}

/// A run of `\d` ends at or after its start.
proof fn lemma_digit_run_ge(s: Seq<char>, k: int)
    requires
        0 <= k,
    ensures
        digit_run_end(s, k) >= k,
    decreases s.len() - k,
{
    if 0 <= k < s.len() && is_regex_digit(s[k]) {
        lemma_digit_run_ge(s, k + 1);
    }
}

/// The leftmost match lies inside the text, with `-` and a word character after its index run.
proof fn lemma_first_run_bounds(s: Seq<char>, i: int)
    requires
        0 <= i,
        first_index_run_from(s, i) is Some,
    ensures
        first_index_run_from(s, i) matches Some((a, b)) && i <= a < b && index_run_at(s, a) == Some(b) && b + 1
            < s.len() && s[b] == '-' && is_word_char(s[b + 1]),
    decreases s.len() - i,
{
    if index_run_at(s, i) is None {
        lemma_first_run_bounds(s, i + 1);
    } else {
        lemma_digit_run_ge(s, i + 1);
    }
}

/// A text `<digits>-<word>` or `<digits>-<word>.delta`, with ASCII digits that
/// fit in a `u32`, can be parsed, and parses to its digits and word.
pub proof fn lemma_simple_delta_text(d: Seq<char>, w: Seq<char>, ext: Seq<char>)
    requires
        d.len() > 0,
        forall|k: int| 0 <= k < d.len() ==> is_digit(#[trigger] d[k]),
        digits_value(d) <= u32::MAX,
        is_word_text(w),
        ext == Seq::<char>::empty() || ext == delta_extension(),
    ensures
        delta_text_parse_defined(d + seq!['-'] + w + ext),
        delta_text_parse(d + seq!['-'] + w + ext) == Some((digits_value(d) as u32, w)),
{
    let s = d + seq!['-'] + w + ext;
    let p0 = d.len() as int;
    let e = p0 + 1 + w.len();
    assert(s[p0] == '-');
    assert forall|k: int| 0 <= k < p0 implies is_digit(#[trigger] s[k]) by {
        assert(s[k] == d[k]);
    }
    assert forall|k: int| p0 + 1 <= k < e implies is_word_char(#[trigger] s[k]) by {
        assert(s[k] == w[k - p0 - 1]);
    }
    if ext == delta_extension() {
        assert(s[e] == '.');
    }
    assert(s.subrange(0, p0) =~= d);
    assert(s.subrange(p0 + 1, e) =~= w);
    lemma_digit_run_exact(s, 0, p0);
    lemma_word_run_exact(s, p0 + 1, e);
    assert(s[p0 + 1] == w[0]);
    assert(index_run_at(s, 0) == Some(p0));
    assert(first_index_run_from(s, 0) == Some((0int, p0)));
}

/// The key of a delta parses back into the same identifier, and parsing it is
/// defined: `DeltaId::from` of `<index>-<digest>.delta` gives `index` and `digest`.
pub proof fn lemma_delta_key_parses(index: u32, digest: Seq<char>)
    requires
        is_word_text(digest),
    ensures
        delta_text_parse_defined(delta_key_text(index, digest)),
        delta_id_of(delta_key_text(index, digest)) == Some((index, digest)),
{
    lemma_decimal_shape(index as nat);
    lemma_simple_delta_text(decimal(index as nat), digest, delta_extension());
}

/// The identifier of a delta: its index and its digest.
pub struct DeltaId {
    index: u32,
    digest: String,
}

impl View for DeltaId {
    type V = (u32, Seq<char>);

    closed spec fn view(&self) -> (u32, Seq<char>) {
        (self.index, self.digest@)
    }
}

fn digit_str(d: u32) -> (r: &'static str)
    requires
        d < 10,
    ensures
        r@ == seq![digit_char(d as nat)],
{
    let digits = "0123456789";
    proof {
        reveal_strlit("0123456789");
        assert(digits@ =~= seq!['0', '1', '2', '3', '4', '5', '6', '7', '8', '9']);
        assert(digits@[d as int] == digit_char(d as nat)) by {
            if d == 0 {} else if d == 1 {} else if d == 2 {} else if d == 3 {} else if d == 4 {}
            else if d == 5 {} else if d == 6 {} else if d == 7 {} else if d == 8 {} else {}
        }
    }
    let r = digits.substring_ascii(d as usize, d as usize + 1);
    assert(r@ =~= seq![digit_char(d as nat)]);
    r
}

/// The decimal representation of `n`.
pub fn u32_to_decimal(n: u32) -> (r: String)
    ensures
        r@ == decimal(n as nat),
    decreases n,
{
    if n < 10 {
        String::from_str(digit_str(n))
    } else {
        let mut s = u32_to_decimal(n / 10);
        s.append(digit_str(n % 10));
        s
    }
}

/// The characters of a string.
pub(crate) fn str_to_chars(s: &str) -> (r: Vec<char>)
    ensures
        r@ == s@,
{
    let n = s.unicode_len();
    let mut r: Vec<char> = Vec::new();
    let mut i: usize = 0;
    while i < n
        invariant
            n == s@.len(),
            i <= n,
            r@ == s@.subrange(0, i as int),
        decreases n - i,
    {
        r.push(s.get_char(i));
        i = i + 1;
        assert(r@ =~= s@.subrange(0, i as int));
    }
    assert(s@.subrange(0, n as int) =~= s@);
    r
}


/// A prefix of a run of digits has no larger value.
pub(crate) proof fn lemma_digits_value_monotone(s: Seq<char>, n: int)
    requires
        0 <= n <= s.len(),
        forall|t: int| 0 <= t < s.len() ==> is_digit(#[trigger] s[t]),
    ensures
        digits_value(s.subrange(0, n)) <= digits_value(s),
    decreases s.len() - n,
{
    if n < s.len() {
        lemma_digits_value_monotone(s, n + 1);
        let a = s.subrange(0, n + 1);
        assert(a.drop_last() =~= s.subrange(0, n));
    } else {
        assert(s.subrange(0, n) =~= s);
    }
}



/// Whether `s` is a non-empty run of word characters.
pub fn is_word(s: &str) -> (r: bool)
    ensures
        r == is_word_text(s@),
{
    let cs = str_to_chars(s);
    if cs.len() == 0 {
        return false;
    }
    let mut i: usize = 0;
    while i < cs.len()
        invariant
            cs@ == s@,
            i <= cs@.len(),
            forall|t: int| 0 <= t < i ==> is_word_char(#[trigger] cs@[t]),
        decreases cs@.len() - i,
    {
        if !is_word_char_exec(cs[i]) {
            assert(!is_word_char(s@[i as int]));
            return false;
        }
        i = i + 1;
    }
    true
}

fn is_digit_exec(c: char) -> (r: bool)
    ensures
        r == is_digit(c),
{
    '0' <= c && c <= '9'
}

/// Whether `\d` takes `c`.
pub(crate) fn is_regex_digit_exec(c: char) -> (r: bool)
    ensures
        r == is_regex_digit(c),
{
    ('0' <= c && c <= '9') || (c > '\u{7f}' && regex_digit(c))
}

fn is_word_char_exec(c: char) -> (r: bool)
    ensures
        r == is_word_char(c),
{
    ('0' <= c && c <= '9') || ('a' <= c && c <= 'z') || ('A' <= c && c <= 'Z') || c == '_' || (c > '\u{7f}'
        && regex_word(c))
}

/// The end of the run of `\d` of `cs` that starts at `k`.
fn digit_run_end_exec(cs: &Vec<char>, k: usize) -> (r: usize)
    requires
        k <= cs@.len(),
    ensures
        r == digit_run_end(cs@, k as int),
        k <= r <= cs@.len(),
        forall|t: int| k <= t < r ==> is_regex_digit(#[trigger] cs@[t]),
{
    let mut j = k;
    while j < cs.len() && is_regex_digit_exec(cs[j])
        invariant
            k <= j <= cs@.len(),
            digit_run_end(cs@, k as int) == digit_run_end(cs@, j as int),
            forall|t: int| k <= t < j ==> is_regex_digit(#[trigger] cs@[t]),
        decreases cs@.len() - j,
    {
        j = j + 1;
    }
    j
}

/// Whether melda's pattern matches from `a` (see `index_run_at`).
fn index_run_at_exec(cs: &Vec<char>, a: usize) -> (r: Option<usize>)
    requires
        a < cs@.len(),
    ensures
        match r {
            Some(b) => index_run_at(cs@, a as int) == Some(b as int),
            None => index_run_at(cs@, a as int) is None,
        },
        r matches Some(b) ==> a < b < cs@.len(),
{
    if is_regex_digit_exec(cs[a]) && (a == 0 || !is_regex_digit_exec(cs[a - 1])) {
        let b = digit_run_end_exec(cs, a);
        if cs.len() - b > 1 && cs[b] == '-' && is_word_char_exec(cs[b + 1]) {
            Some(b)
        } else {
            None
        }
    } else {
        None
    }
}

/// Whether the characters of `cs` in `[a, b)` are ASCII digits.
pub(crate) fn all_ascii_digits(cs: &Vec<char>, a: usize, b: usize) -> (r: bool)
    requires
        a <= b <= cs@.len(),
    ensures
        r == (forall|t: int| a <= t < b ==> is_digit(#[trigger] cs@[t])),
{
    let mut t = a;
    while t < b
        invariant
            a <= t <= b <= cs@.len(),
            forall|u: int| a <= u < t ==> is_digit(#[trigger] cs@[u]),
        decreases b - t,
    {
        if !is_digit_exec(cs[t]) {
            return false;
        }
        t = t + 1;
    }
    true
}

/// Whether the digits of `cs` in `[a, b)` have a value that fits in a `u32`.
pub(crate) fn digits_fit(cs: &Vec<char>, a: usize, b: usize) -> (r: bool)
    requires
        a <= b <= cs@.len(),
        forall|u: int| a <= u < b ==> is_digit(#[trigger] cs@[u]),
    ensures
        r == (digits_value(cs@.subrange(a as int, b as int)) <= u32::MAX),
{
    let mut j = a;
    let mut value: u64 = 0;
    assert(cs@.subrange(a as int, a as int) =~= Seq::<char>::empty());
    while j < b
        invariant
            a <= j <= b <= cs@.len(),
            forall|u: int| a <= u < b ==> is_digit(#[trigger] cs@[u]),
            value == digits_value(cs@.subrange(a as int, j as int)),
            value <= u32::MAX,
        decreases b - j,
    {
        proof {
            assert(cs@.subrange(a as int, j + 1).drop_last() =~= cs@.subrange(a as int, j as int));
        }
        let d = (cs[j] as u32 - '0' as u32) as u64;
        let next = value * 10 + d;
        if next > u32::MAX as u64 {
            proof {
                assert forall|u: int| 0 <= u < b - a implies is_digit(#[trigger] cs@.subrange(a as int, b as int)[u]) by {
                    assert(cs@.subrange(a as int, b as int)[u] == cs@[a + u]);
                }
                lemma_digits_value_monotone(cs@.subrange(a as int, b as int), (j - a + 1) as int);
                assert(cs@.subrange(a as int, b as int).subrange(0, (j - a + 1) as int) =~= cs@.subrange(
                    a as int,
                    j + 1,
                ));
            }
            return false;
        }
        value = next;
        j = j + 1;
    }
    true
}

/// Whether parsing `s` as a delta identifier does not panic (see
/// `delta_text_parse_defined`).
pub fn is_parsable_delta_text(s: &str) -> (r: bool)
    ensures
        r == delta_text_parse_defined(s@),
{
    let cs = str_to_chars(s);
    let mut i: usize = 0;
    while i < cs.len()
        invariant
            cs@ == s@,
            i <= cs@.len(),
            first_index_run_from(s@, 0) == first_index_run_from(s@, i as int),
        decreases cs@.len() - i,
    {
        match index_run_at_exec(&cs, i) {
            Some(b) => {
                if !all_ascii_digits(&cs, i, b) {
                    return false;
                }
                return digits_fit(&cs, i, b);
            },
            None => {},
        }
        i = i + 1;
    }
    true
}

impl DeltaId {
    /// The digest is a non-empty run of word characters.
    pub closed spec fn wf(&self) -> bool {
        is_word_text(self.digest@)
    }

    /// Parses a delta identifier with melda's `DeltaId::from`: the index and
    /// the digest of the leftmost `\d+-\w+` of the text. Fails with
    /// `InvalidDeltaId` when the text has none.
    pub fn from(s: &str) -> (r: Result<DeltaId, crate::error::SecError>)
        requires
            delta_text_parse_defined(s@),
        ensures
            r matches Ok(d) ==> d.wf() && delta_id_of(s@) == Some(d@),
            r is Err ==> delta_id_of(s@) is None,
            r matches Err(e) ==> e == crate::error::SecError::InvalidDeltaId,
    {
        match melda_parse_delta_id(s) {
            Some((index, digest)) => {
                proof {
                    lemma_parsed_digest_is_word(s@);
                }
                Ok(DeltaId { index, digest })
            },
            None => Err(crate::error::SecError::InvalidDeltaId),
        }
    }

    /// A delta identifier from its index and digest.
    pub fn from_parts(index: u32, digest: String) -> (r: DeltaId)
        requires
            is_word_text(digest@),
        ensures
            r.wf(),
            r@ == (index, digest@),
    {
        DeltaId { index, digest }
    }

    /// The digest of a well-formed identifier is a non-empty run of word characters.
    pub proof fn lemma_wf_digest(&self)
        requires
            self.wf(),
        ensures
            is_word_text(self@.1),
    {
    }

    /// The index of the delta.
    pub fn index(&self) -> (r: u32)
        ensures
            r == self@.0,
    {
        self.index
    }

    /// The digest of the delta.
    pub fn digest(&self) -> (r: &String)
        ensures
            r@ == self@.1,
    {
        &self.digest
    }

    /// The storage key of the delta: `<index>-<digest>.delta`.
    pub fn key(&self) -> (r: String)
        ensures
            r@ == delta_key_text(self@.0, self@.1),
    {
        let s = u32_to_decimal(self.index);
        let s = s.concat("-");
        let s = s.concat(self.digest.as_str());
        let r = s.concat(".delta");
        proof {
            reveal_strlit("-");
            reveal_strlit(".delta");
            assert(r@ =~= delta_key_text(self@.0, self@.1));
        }
        r
    }

    /// Whether two identifiers are the same.
    pub fn same_as(&self, other: &DeltaId) -> (r: bool)
        ensures
            r == (self@ == other@),
    {
        self.index == other.index && self.digest.eq(&other.digest)
    }

    /// A copy of the identifier.
    pub fn copy(&self) -> (r: DeltaId)
        ensures
            r@ == self@,
            self.wf() ==> r.wf(),
    {
        DeltaId { index: self.index, digest: self.digest.clone() }
    }
}

} // verus!
