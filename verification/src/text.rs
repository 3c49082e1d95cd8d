//! Character-level text helpers with their specifications: substring search,
//! prefixes and suffixes, decimal rendering and UTF-8 byte lengths.

use vstd::prelude::*;
use vstd::utf8::*;

verus! {

broadcast use vstd::seq_lib::group_seq_properties;

/// `needle` occurs in `hay` at position `i`.
pub open spec fn occurs_at(hay: Seq<char>, needle: Seq<char>, i: int) -> bool {
    &&& 0 <= i
    &&& i + needle.len() <= hay.len()
    &&& hay.subrange(i, i + needle.len()) == needle
}

/// `needle` occurs somewhere in `hay`.
pub open spec fn has_substring(hay: Seq<char>, needle: Seq<char>) -> bool {
    exists|i: int| occurs_at(hay, needle, i)
}

/// `prefix` is a prefix of `s`.
pub open spec fn has_prefix(s: Seq<char>, prefix: Seq<char>) -> bool {
    occurs_at(s, prefix, 0)
}

/// `suffix` is a suffix of `s`.
pub open spec fn has_suffix(s: Seq<char>, suffix: Seq<char>) -> bool {
    suffix.len() <= s.len() && occurs_at(s, suffix, s.len() - suffix.len())
}

/// Number of UTF-8 bytes of a character sequence.
pub open spec fn utf8_len(s: Seq<char>) -> nat {
    encode_utf8(s).len()
}

/// Number of UTF-8 bytes used to encode one character.
pub open spec fn char_utf8_width(c: char) -> nat {
    if (c as u32) < 0x80 {
        1
    } else if (c as u32) < 0x800 {
        2
    } else if (c as u32) < 0x10000 {
        3
    } else {
        4
    }
}

/// The UTF-8 encoding of a single character has `char_utf8_width` bytes.
pub proof fn lemma_encode_scalar_len(c: char)
    ensures
        encode_scalar(c as u32).len() == char_utf8_width(c),
{
    let v = c as u32;
    assert(0 <= v);
    if v < 0x80 {
        assert(has_width_1_encoding(v));
    } else if v < 0x800 {
        assert(has_width_2_encoding(v));
    } else if v < 0x10000 {
        assert(has_width_3_encoding(v));
    } else {
        assert(has_width_4_encoding(v));
    }
}

/// The byte length of a concatenation is the sum of the byte lengths.
pub proof fn lemma_utf8_len_concat(a: Seq<char>, b: Seq<char>)
    ensures
        utf8_len(a + b) == utf8_len(a) + utf8_len(b),
    decreases a.len(),
{
    if a.len() == 0 {
        assert(a + b =~= b);
    } else {
        assert((a + b).drop_first() =~= a.drop_first() + b);
        assert((a + b)[0] == a[0]);
        lemma_utf8_len_concat(a.drop_first(), b);
    }
}

/// Appending one character adds its width.
pub proof fn lemma_utf8_len_push(a: Seq<char>, c: char)
    ensures
        utf8_len(a.push(c)) == utf8_len(a) + char_utf8_width(c),
{
    assert(a.push(c) =~= a + seq![c]);
    lemma_utf8_len_concat(a, seq![c]);
    assert(seq![c].drop_first() =~= Seq::<char>::empty());
    assert(encode_utf8(Seq::<char>::empty()) =~= Seq::<u8>::empty());
    assert(encode_utf8(seq![c]) =~= encode_scalar(c as u32) + encode_utf8(Seq::<char>::empty()));
    lemma_encode_scalar_len(c);
}

/// A character sequence has at least as many bytes as characters.
pub proof fn lemma_chars_le_utf8_len(s: Seq<char>)
    ensures
        s.len() <= utf8_len(s),
    decreases s.len(),
{
    if s.len() > 0 {
        lemma_chars_le_utf8_len(s.drop_first());
        lemma_encode_scalar_len(s[0]);
    }
}

/// Appends one character to a string.
#[verifier::external_body]
pub(crate) fn push_char(s: &mut String, c: char)
    ensures
        final(s)@ == old(s)@.push(c),
{
    s.push(c);
}

/// Collects the characters of a string slice.
pub fn chars_of(s: &str) -> (r: Vec<char>)
    ensures
        r@ == s@,
{
    let mut r: Vec<char> = Vec::new();
    for c in it: s.chars()
        invariant
            it.seq() == s@,
            r@ == it.seq().take(it.index() as int),
    {
        r.push(c);
    }
    r
}

/// Builds a string from characters.
pub fn string_from_chars(v: &[char]) -> (r: String)
    ensures
        r@ == v@,
{
    let mut r = String::new();
    let mut i: usize = 0;
    while i < v.len()
        invariant
            i <= v@.len(),
            r@ == v@.take(i as int),
        decreases v@.len() - i,
    {
        push_char(&mut r, v[i]);
        assert(v@.take(i + 1) =~= v@.take(i as int).push(v@[i as int]));
        i = i + 1;
    }
    assert(v@.take(v@.len() as int) =~= v@);
    r
}

/// Appends a string slice to a string.
pub fn append_str(s: &mut String, t: &str)
    ensures
        final(s)@ == old(s)@ + t@,
{
    s.append(t);
}

/// Whether `needle` occurs at position `i` of `hay` (character sequences).
pub fn matches_at(hay: &[char], needle: &[char], i: usize) -> (r: bool)
    ensures
        r == occurs_at(hay@, needle@, i as int),
{
    if i > hay.len() || needle.len() > hay.len() - i {
        return false;
    }
    let mut j: usize = 0;
    while j < needle.len()
        invariant
            hay.len() == hay@.len(),
            i + needle@.len() <= hay@.len(),
            j <= needle@.len(),
            forall|k: int| 0 <= k < j ==> hay@[i + k] == needle@[k],
        decreases needle@.len() - j,
    {
        if hay[i + j] != needle[j] {
            assert(hay@.subrange(i as int, i + needle@.len())[j as int] != needle@[j as int]);
            return false;
        }
        j = j + 1;
    }
    assert(hay@.subrange(i as int, i + needle@.len()) =~= needle@);
    true
}

/// Whether `needle` occurs anywhere in `hay` (character sequences).
pub fn contains_chars(hay: &[char], needle: &[char]) -> (r: bool)
    ensures
        r == has_substring(hay@, needle@),
{
    if needle.len() > hay.len() {
        assert forall|i: int| !occurs_at(hay@, needle@, i) by {}
        return false;
    }
    if needle.len() == 0 {
        assert(occurs_at(hay@, needle@, 0));
        return true;
    }
    let mut i: usize = 0;
    while i <= hay.len() - needle.len()
        invariant
            hay.len() == hay@.len(),
            needle.len() == needle@.len(),
            needle@.len() >= 1,
            needle@.len() <= hay@.len(),
            i + needle@.len() <= hay@.len() + 1,
            forall|k: int| 0 <= k < i ==> !occurs_at(hay@, needle@, k),
        decreases hay@.len() - i,
    {
        if matches_at(hay, needle, i) {
            return true;
        }
        i = i + 1;
    }
    assert forall|k: int| !occurs_at(hay@, needle@, k) by {
        if 0 <= k < i {
        }
    }
    false
}

/// Whether `needle` occurs anywhere in `hay`.
pub fn str_contains(hay: &str, needle: &str) -> (r: bool)
    ensures
        r == has_substring(hay@, needle@),
{
    let h = chars_of(hay);
    let n = chars_of(needle);
    contains_chars(h.as_slice(), n.as_slice())
}

/// Whether `s` starts with `prefix`.
pub fn str_starts_with(s: &str, prefix: &str) -> (r: bool)
    ensures
        r == has_prefix(s@, prefix@),
{
    let h = chars_of(s);
    let n = chars_of(prefix);
    matches_at(h.as_slice(), n.as_slice(), 0)
}

/// Whether `s` ends with `suffix`.
pub fn str_ends_with(s: &str, suffix: &str) -> (r: bool)
    ensures
        r == has_suffix(s@, suffix@),
{
    let h = chars_of(s);
    let n = chars_of(suffix);
    if n.len() > h.len() {
        return false;
    }
    matches_at(h.as_slice(), n.as_slice(), h.len() - n.len())
}

/// Equality of two string slices.
pub fn str_eq(a: &str, b: &str) -> (r: bool)
    ensures
        r == (a@ == b@),
{
    let x = chars_of(a);
    let y = chars_of(b);
    if x.len() != y.len() {
        return false;
    }
    let r = matches_at(x.as_slice(), y.as_slice(), 0);
    proof {
        if r {
            assert(x@.subrange(0, y@.len() as int) =~= x@);
        }
    }
    r
}

/// Decimal digit character of a value below ten.
pub open spec fn digit_char(d: nat) -> char {
    if d == 0 { '0' }
    else if d == 1 { '1' }
    else if d == 2 { '2' }
    else if d == 3 { '3' }
    else if d == 4 { '4' }
    else if d == 5 { '5' }
    else if d == 6 { '6' }
    else if d == 7 { '7' }
    else if d == 8 { '8' }
    else { '9' }
}

/// Decimal representation of a natural number, without leading zeros.
pub open spec fn decimal(n: nat) -> Seq<char>
    decreases n,
{
    if n < 10 {
        seq![digit_char(n)]
    } else {
        decimal(n / 10).push(digit_char(n % 10))
    }
}

fn digit_of(d: u64) -> (c: char)
    requires
        d < 10,
    ensures
        c == digit_char(d as nat),
{
    if d == 0 { '0' }
    else if d == 1 { '1' }
    else if d == 2 { '2' }
    else if d == 3 { '3' }
    else if d == 4 { '4' }
    else if d == 5 { '5' }
    else if d == 6 { '6' }
    else if d == 7 { '7' }
    else if d == 8 { '8' }
    else { '9' }
}

/// Appends the decimal representation of `n` to `s`.
pub fn push_decimal(s: &mut String, n: u64)
    ensures
        final(s)@ == old(s)@ + decimal(n as nat),
    decreases n,
{
    if n < 10 {
        push_char(s, digit_of(n));
        assert(old(s)@.push(digit_char(n as nat)) =~= old(s)@ + seq![digit_char(n as nat)]);
    } else {
        push_decimal(s, n / 10);
        push_char(s, digit_of(n % 10));
        assert(old(s)@ + decimal((n / 10) as nat) + seq![digit_char((n % 10) as nat)]
            =~= old(s)@ + decimal(n as nat));
    }
}

/// Lower-case form of a string as std's `str::to_lowercase` computes it.
pub uninterp spec fn lowercase(s: Seq<char>) -> Seq<char>;

/// std's `str::to_lowercase`: Unicode lower-casing. The contract names the
/// result after the input; it does not restate the Unicode case tables.
#[verifier::external_body]
pub(crate) fn to_lowercase(s: &str) -> (r: String)
    ensures
        r@ == lowercase(s@),
{
    s.to_lowercase()
}

/// `v` is listed in `names`.
pub open spec fn lists(names: Seq<String>, v: Seq<char>) -> bool {
    exists|k: int| 0 <= k < names.len() && (#[trigger] names[k])@ == v
}

/// Appending a string lists exactly what was listed before and the new one.
pub proof fn lemma_lists_push(names: Seq<String>, x: String, v: Seq<char>)
    ensures
        lists(names.push(x), v) <==> (lists(names, v) || v == x@),
{
    let t = names.push(x);
    if lists(t, v) {
        let w = choose|w: int| 0 <= w < t.len() && (#[trigger] t[w])@ == v;
        if w < names.len() {
            assert(t[w] == names[w]);
        }
    }
    if lists(names, v) {
        let w = choose|w: int| 0 <= w < names.len() && (#[trigger] names[w])@ == v;
        assert(t[w] == names[w]);
    }
    if v == x@ {
        assert(t[names.len() as int] == x);
    }
}

/// One more element of a prefix lists one more string.
pub proof fn lemma_lists_take_next(names: Seq<String>, k: int, v: Seq<char>)
    requires
        0 <= k < names.len(),
    ensures
        lists(names.take(k + 1), v) <==> (lists(names.take(k), v) || v == names[k]@),
{
    assert(names.take(k + 1) =~= names.take(k).push(names[k]));
    lemma_lists_push(names.take(k), names[k], v);
}

/// Lexicographic order of character sequences by code point; on strings it
/// is the order of `str`, since UTF-8 keeps code-point order byte-wise.
pub open spec fn seq_lt(a: Seq<char>, b: Seq<char>) -> bool
    decreases a.len(),
{
    if a.len() == 0 {
        b.len() > 0
    } else if b.len() == 0 {
        false
    } else if a[0] != b[0] {
        a[0] < b[0]
    } else {
        seq_lt(a.drop_first(), b.drop_first())
    }
}

pub proof fn lemma_seq_lt_irreflexive(a: Seq<char>)
    ensures
        !seq_lt(a, a),
    decreases a.len(),
{
    if a.len() > 0 {
        lemma_seq_lt_irreflexive(a.drop_first());
    }
}

pub proof fn lemma_seq_lt_asymmetric(a: Seq<char>, b: Seq<char>)
    ensures
        seq_lt(a, b) ==> !seq_lt(b, a),
    decreases a.len(),
{
    if a.len() > 0 && b.len() > 0 && a[0] == b[0] {
        lemma_seq_lt_asymmetric(a.drop_first(), b.drop_first());
    }
}

pub proof fn lemma_seq_lt_transitive(a: Seq<char>, b: Seq<char>, c: Seq<char>)
    ensures
        seq_lt(a, b) && seq_lt(b, c) ==> seq_lt(a, c),
    decreases a.len(),
{
    if a.len() > 0 && b.len() > 0 && c.len() > 0 && a[0] == b[0] && b[0] == c[0] {
        lemma_seq_lt_transitive(a.drop_first(), b.drop_first(), c.drop_first());
    }
}

pub proof fn lemma_seq_lt_total(a: Seq<char>, b: Seq<char>)
    ensures
        a != b ==> seq_lt(a, b) || seq_lt(b, a),
    decreases a.len(),
{
    if a.len() > 0 && b.len() > 0 && a[0] == b[0] {
        lemma_seq_lt_total(a.drop_first(), b.drop_first());
        if a.drop_first() == b.drop_first() {
            assert(a =~= seq![a[0]] + a.drop_first());
            assert(b =~= seq![b[0]] + b.drop_first());
        }
    } else if a.len() == 0 && b.len() == 0 {
        assert(a =~= b);
    } else if a.len() > 0 && b.len() > 0 {
        assert(a[0] != b[0]);
    }
}

proof fn lemma_seq_lt_skip(a: Seq<char>, b: Seq<char>, i: int)
    requires
        0 <= i <= a.len(),
        i <= b.len(),
        a.take(i) == b.take(i),
    ensures
        seq_lt(a, b) == seq_lt(a.skip(i), b.skip(i)),
    decreases i,
{
    if i > 0 {
        assert(a[0] == a.take(i)[0]);
        assert(b[0] == b.take(i)[0]);
        assert(a.drop_first().take(i - 1) =~= a.take(i).drop_first());
        assert(b.drop_first().take(i - 1) =~= b.take(i).drop_first());
        lemma_seq_lt_skip(a.drop_first(), b.drop_first(), i - 1);
        assert(a.drop_first().skip(i - 1) =~= a.skip(i));
        assert(b.drop_first().skip(i - 1) =~= b.skip(i));
    } else {
        assert(a.skip(0) =~= a);
        assert(b.skip(0) =~= b);
    }
}

/// Lexicographic comparison of character sequences.
pub fn chars_lt(a: &[char], b: &[char]) -> (r: bool)
    ensures
        r == seq_lt(a@, b@),
{
    let mut i: usize = 0;
    while i < a.len() && i < b.len()
        invariant
            i <= a@.len(),
            i <= b@.len(),
            a@.take(i as int) == b@.take(i as int),
        decreases a@.len() - i,
    {
        if a[i] != b[i] {
            proof {
                lemma_seq_lt_skip(a@, b@, i as int);
                assert(a@.skip(i as int)[0] == a@[i as int]);
                assert(b@.skip(i as int)[0] == b@[i as int]);
            }
            return a[i] < b[i];
        }
        assert(a@.take(i + 1) =~= a@.take(i as int).push(a@[i as int]));
        assert(b@.take(i + 1) =~= b@.take(i as int).push(b@[i as int]));
        i = i + 1;
    }
    proof {
        lemma_seq_lt_skip(a@, b@, i as int);
    }
    i == a.len() && i < b.len()
}

/// Lexicographic comparison of strings, as `<` on `str` orders them.
pub fn str_lt(a: &str, b: &str) -> (r: bool)
    ensures
        r == seq_lt(a@, b@),
{
    let x = chars_of(a);
    let y = chars_of(b);
    chars_lt(x.as_slice(), y.as_slice())
}

/// Every string of `s` comes strictly before the next ones.
pub open spec fn strictly_sorted(s: Seq<String>) -> bool {
    forall|i: int, j: int| 0 <= i < j < s.len() ==> seq_lt((#[trigger] s[i])@, (#[trigger] s[j])@)
}

/// Inserts `x` at its place in a strictly sorted list, unless it is there.
pub fn insert_sorted_unique(v: &mut Vec<String>, x: &String)
    requires
        strictly_sorted(old(v)@),
    ensures
        strictly_sorted(final(v)@),
        forall|y: Seq<char>| lists(final(v)@, y) <==> (lists(old(v)@, y) || y == x@),
{
    let ghost old_v = v@;
    let mut p: usize = 0;
    while p < v.len() && str_lt(v[p].as_str(), x.as_str())
        invariant
            v@ == old_v,
            p <= v@.len(),
            forall|k: int| 0 <= k < p ==> seq_lt((#[trigger] v@[k])@, x@),
        decreases v@.len() - p,
    {
        p = p + 1;
    }
    if p < v.len() && v[p].eq(x) {
        return;
    }
    proof {
        if p < v@.len() {
            lemma_seq_lt_total(v@[p as int]@, x@);
        }
    }
    v.insert(p, x.clone());
    proof {
        assert forall|i: int, j: int| 0 <= i < j < v@.len() implies seq_lt((#[trigger] v@[i])@, (#[trigger] v@[j])@) by {
            if j < p {
                assert(v@[i] == old_v[i] && v@[j] == old_v[j]);
            } else if j == p {
                assert(v@[i] == old_v[i]);
            } else if i == p {
                assert(v@[j] == old_v[j - 1]);
                if j - 1 > p {
                    lemma_seq_lt_transitive(x@, old_v[p as int]@, old_v[j - 1]@);
                }
            } else if i < p {
                assert(v@[i] == old_v[i] && v@[j] == old_v[j - 1]);
            } else {
                assert(v@[i] == old_v[i - 1] && v@[j] == old_v[j - 1]);
            }
        }
        assert forall|y: Seq<char>| lists(v@, y) <==> (lists(old_v, y) || y == x@) by {
            if lists(v@, y) {
                let k = choose|k: int| 0 <= k < v@.len() && (#[trigger] v@[k])@ == y;
                if k < p {
                    assert(v@[k] == old_v[k]);
                } else if k > p {
                    assert(v@[k] == old_v[k - 1]);
                }
            }
            if lists(old_v, y) {
                let k = choose|k: int| 0 <= k < old_v.len() && (#[trigger] old_v[k])@ == y;
                if k < p {
                    assert(v@[k] == old_v[k]);
                } else {
                    assert(v@[k + 1] == old_v[k]);
                }
            }
            if y == x@ {
                assert(v@[p as int]@ == x@);
            }
        }
    }
}

/// The distinct strings of `v`, in increasing order (a sort followed by the
/// removal of duplicates).
pub fn sorted_unique(v: &Vec<String>) -> (r: Vec<String>)
    ensures
        strictly_sorted(r@),
        forall|y: Seq<char>| lists(r@, y) <==> lists(v@, y),
{
    let mut r: Vec<String> = Vec::new();
    let mut i: usize = 0;
    while i < v.len()
        invariant
            i <= v@.len(),
            strictly_sorted(r@),
            forall|y: Seq<char>| lists(r@, y) <==> lists(v@.take(i as int), y),
        decreases v@.len() - i,
    {
        insert_sorted_unique(&mut r, &v[i]);
        proof {
            assert forall|y: Seq<char>| lists(r@, y) <==> lists(v@.take(i + 1), y) by {
                let t0 = v@.take(i as int);
                let t1 = v@.take(i + 1);
                if lists(t0, y) {
                    let k = choose|k: int| 0 <= k < t0.len() && (#[trigger] t0[k])@ == y;
                    assert(t1[k] == t0[k]);
                }
                if lists(t1, y) {
                    let k = choose|k: int| 0 <= k < t1.len() && (#[trigger] t1[k])@ == y;
                    if k < i {
                        assert(t1[k] == t0[k]);
                    }
                }
                if y == v@[i as int]@ {
                    assert(t1[i as int] == v@[i as int]);
                }
            }
        }
        i = i + 1;
    }
    proof {
        assert(v@.take(v@.len() as int) =~= v@);
    }
    r
}

/// Index of the first `c` in `s`, or the length of `s`.
pub open spec fn char_pos(s: Seq<char>, c: char) -> int
    decreases s.len(),
{
    if s.len() == 0 || s[0] == c {
        0
    } else {
        1 + char_pos(s.drop_first(), c)
    }
}

/// The part of `s` before the first `c` (all of `s` without one), as the
/// first item of `split(c)`.
pub open spec fn before_char(s: Seq<char>, c: char) -> Seq<char> {
    s.take(char_pos(s, c))
}

pub proof fn lemma_char_pos(s: Seq<char>, c: char)
    ensures
        0 <= char_pos(s, c) <= s.len(),
        char_pos(s, c) < s.len() ==> s[char_pos(s, c)] == c,
        forall|k: int| 0 <= k < char_pos(s, c) ==> s[k] != c,
    decreases s.len(),
{
    if s.len() > 0 && s[0] != c {
        lemma_char_pos(s.drop_first(), c);
        assert forall|k: int| 0 <= k < char_pos(s, c) implies s[k] != c by {
            if k > 0 {
                assert(s[k] == s.drop_first()[k - 1]);
            }
        }
    }
}

/// The part of `s` before the first `c`.
pub fn prefix_before(s: &str, c: char) -> (r: String)
    ensures
        r@ == before_char(s@, c),
{
    let cs = chars_of(s);
    let mut p: usize = 0;
    while p < cs.len() && cs[p] != c
        invariant
            p <= cs@.len(),
            forall|k: int| 0 <= k < p ==> cs@[k] != c,
        decreases cs@.len() - p,
    {
        p = p + 1;
    }
    proof {
        lemma_char_pos(s@, c);
        let b = char_pos(s@, c);
        if b < p {
            assert(cs@[b] == c);
        }
        if p < b {
            assert(cs@[p as int] != c);
        }
    }
    string_from_chars(cs.as_slice().split_at(p).0)
}

/// `s` with every occurrence of `from`, scanned left to right without
/// overlap, replaced by `to` (`str::replace` for a non-empty pattern).
pub open spec fn replace_all(s: Seq<char>, from: Seq<char>, to: Seq<char>) -> Seq<char>
    decreases s.len(),
{
    if from.len() == 0 || s.len() < from.len() {
        s
    } else if s.take(from.len() as int) == from {
        to + replace_all(s.skip(from.len() as int), from, to)
    } else {
        seq![s[0]] + replace_all(s.drop_first(), from, to)
    }
}

/// `s` with every occurrence of the non-empty `from` replaced by `to`.
pub fn replace_str(s: &str, from: &str, to: &str) -> (r: String)
    requires
        from@.len() > 0,
    ensures
        r@ == replace_all(s@, from@, to@),
{
    let cs = chars_of(s);
    let fc = chars_of(from);
    let mut r = String::new();
    let mut i: usize = 0;
    proof {
        assert(cs@.skip(0) =~= cs@);
    }
    while i < cs.len()
        invariant
            i <= cs@.len(),
            fc@ == from@,
            fc@.len() > 0,
            replace_all(cs@, from@, to@) == r@ + replace_all(cs@.skip(i as int), from@, to@),
        decreases cs@.len() - i,
    {
        let ghost rest = cs@.skip(i as int);
        if fc.len() <= cs.len() - i && matches_at(cs.as_slice(), fc.as_slice(), i) {
            proof {
                assert(rest.take(from@.len() as int) =~= cs@.subrange(i as int, i + from@.len()));
                assert(rest.skip(from@.len() as int) =~= cs@.skip(i + from@.len()));
                assert(r@ + (to@ + replace_all(cs@.skip(i + from@.len()), from@, to@)) =~= (r@ + to@) + replace_all(
                    cs@.skip(i + from@.len()),
                    from@,
                    to@,
                ));
            }
            append_str(&mut r, to);
            i = i + fc.len();
        } else {
            proof {
                if fc@.len() <= cs@.len() - i {
                    assert(rest.take(from@.len() as int) != from@) by {
                        if rest.take(from@.len() as int) == from@ {
                            assert(cs@.subrange(i as int, i + from@.len()) =~= rest.take(from@.len() as int));
                        }
                    }
                }
                assert(rest[0] == cs@[i as int]);
                assert(rest.drop_first() =~= cs@.skip(i + 1));
                assert(r@ + (seq![cs@[i as int]] + replace_all(cs@.skip(i + 1), from@, to@)) =~= r@.push(cs@[i as int])
                    + replace_all(cs@.skip(i + 1), from@, to@));
            }
            push_char(&mut r, cs[i]);
            i = i + 1;
        }
    }
    proof {
        assert(cs@.skip(i as int) =~= Seq::<char>::empty());
        assert(r@ + Seq::<char>::empty() =~= r@);
    }
    r
}

} // verus!
