//! Character-level text operations with their mathematical meaning.
//!
//! Every string here is viewed as its sequence of Unicode scalar values
//! (`Seq<char>`). Byte lengths are the UTF-8 lengths of those sequences.
use vstd::prelude::*;
use vstd::string::*;

verus! {

/// `char::is_whitespace`: the Unicode `White_Space` property.
pub open spec fn is_whitespace(c: char) -> bool {
    ||| ('\u{9}' <= c && c <= '\u{d}')
    ||| c == ' '
    ||| c == '\u{85}'
    ||| c == '\u{a0}'
    ||| c == '\u{1680}'
    ||| ('\u{2000}' <= c && c <= '\u{200a}')
    ||| c == '\u{2028}'
    ||| c == '\u{2029}'
    ||| c == '\u{202f}'
    ||| c == '\u{205f}'
    ||| c == '\u{3000}'
}

pub fn is_whitespace_char(c: char) -> (b: bool)
    ensures
        b == is_whitespace(c),
{
    (c >= '\u{9}' && c <= '\u{d}') || c == ' ' || c == '\u{85}' || c == '\u{a0}' || c
        == '\u{1680}' || (c >= '\u{2000}' && c <= '\u{200a}') || c == '\u{2028}' || c
        == '\u{2029}' || c == '\u{202f}' || c == '\u{205f}' || c == '\u{3000}'
}

/// A set of characters that a trim removes.
#[derive(Clone, Copy)]
pub enum CharSet {
    Whitespace,
    Only(char),
}

pub open spec fn in_set(c: char, set: CharSet) -> bool {
    match set {
        CharSet::Whitespace => is_whitespace(c),
        CharSet::Only(d) => c == d,
    }
}

fn char_in_set(c: char, set: CharSet) -> (b: bool)
    ensures
        b == in_set(c, set),
{
    match set {
        CharSet::Whitespace => is_whitespace_char(c),
        CharSet::Only(d) => c == d,
    }
}

/// `s` without its leading characters from `set`.
pub open spec fn strip_front(s: Seq<char>, set: CharSet) -> Seq<char>
    decreases s.len(),
{
    if s.len() > 0 && in_set(s[0], set) {
        strip_front(s.drop_first(), set)
    } else {
        s
    }
}

/// `s` without its trailing characters from `set`.
pub open spec fn strip_back(s: Seq<char>, set: CharSet) -> Seq<char>
    decreases s.len(),
{
    if s.len() > 0 && in_set(s.last(), set) {
        strip_back(s.drop_last(), set)
    } else {
        s
    }
}

/// `str::trim_matches` with a character set: both ends stripped.
pub open spec fn strip_both(s: Seq<char>, set: CharSet) -> Seq<char> {
    strip_back(strip_front(s, set), set)
}

/// `str::trim`.
pub open spec fn trim(s: Seq<char>) -> Seq<char> {
    strip_both(s, CharSet::Whitespace)
}

/// `str::trim_start_matches` with a string pattern: the pattern is removed
/// from the front for as long as it is there.
pub open spec fn strip_prefixes(s: Seq<char>, p: Seq<char>) -> Seq<char>
    decreases s.len(),
{
    if p.len() > 0 && p.is_prefix_of(s) {
        strip_prefixes(s.skip(p.len() as int), p)
    } else {
        s
    }
}

/// `str::trim_end_matches` with a string pattern.
pub open spec fn strip_suffixes(s: Seq<char>, p: Seq<char>) -> Seq<char>
    decreases s.len(),
{
    if p.len() > 0 && p.is_suffix_of(s) {
        strip_suffixes(s.take(s.len() - p.len()), p)
    } else {
        s
    }
}

/// `p` occurs in `s` starting at position `i`.
pub open spec fn occurs_at(s: Seq<char>, p: Seq<char>, i: int) -> bool {
    0 <= i && i + p.len() <= s.len() && s.subrange(i, i + p.len()) == p
}

/// The first position at or after `from` where `p` occurs in `s`.
pub open spec fn find_from(s: Seq<char>, p: Seq<char>, from: int) -> Option<int>
    decreases s.len() + 1 - from,
{
    if from < 0 || from + p.len() > s.len() {
        None
    } else if occurs_at(s, p, from) {
        Some(from)
    } else {
        find_from(s, p, from + 1)
    }
}

/// `str::find`, counted in characters.
pub open spec fn find(s: Seq<char>, p: Seq<char>) -> Option<int> {
    find_from(s, p, 0)
}

/// The first `n` characters of `s` (all of them when there are fewer):
/// `chars().take(n)`.
pub open spec fn take_chars(s: Seq<char>, n: int) -> Seq<char> {
    if n < s.len() {
        s.take(n)
    } else {
        s
    }
}

/// The number of bytes of the UTF-8 encoding of `c`.
pub open spec fn utf8_width(c: char) -> nat {
    if (c as u32) < 0x80 {
        1
    } else if (c as u32) < 0x800 {
        2
    } else if (c as u32) < 0x10000 {
        3
    } else {
        4
    }
}

/// The number of bytes of the UTF-8 encoding of `s` (`str::len`).
pub open spec fn utf8_len(s: Seq<char>) -> nat
    decreases s.len(),
{
    if s.len() == 0 {
        0
    } else {
        utf8_width(s[0]) + utf8_len(s.drop_first())
    }
}

pub open spec fn digit_char(d: nat) -> char {
    seq!['0', '1', '2', '3', '4', '5', '6', '7', '8', '9'][d as int]
}

/// The decimal notation of `n`, without sign or leading zeros.
pub open spec fn decimal(n: nat) -> Seq<char>
    decreases n,
{
    if n < 10 {
        seq![digit_char(n)]
    } else {
        decimal(n / 10).push(digit_char(n % 10))
    }
}

/// `str::to_lowercase`: the result of std's Unicode lowercase mapping.
pub uninterp spec fn std_lowercase(s: Seq<char>) -> Seq<char>;

/// Calls `str::to_lowercase`. The contract claims only that the result is
/// a function of the characters of `s`; the Unicode case tables are std's.
#[verifier::external_body]
pub(crate) fn to_lowercase(s: &str) -> (res: String)
    ensures
        res@ == std_lowercase(s@),
{
    s.to_lowercase()
}

pub proof fn lemma_utf8_len_concat(a: Seq<char>, b: Seq<char>)
    ensures
        utf8_len(a + b) == utf8_len(a) + utf8_len(b),
    decreases a.len(),
{
    if a.len() > 0 {
        assert((a + b).drop_first() =~= a.drop_first() + b);
        lemma_utf8_len_concat(a.drop_first(), b);
    } else {
        assert(a + b =~= b);
    }
}

pub proof fn lemma_utf8_len_take(s: Seq<char>, i: int)
    requires
        0 <= i < s.len(),
    ensures
        utf8_len(s.take(i + 1)) == utf8_len(s.take(i)) + utf8_width(s[i]),
        utf8_len(s.take(i)) <= utf8_len(s),
{
    let one = seq![s[i]];
    assert(s.take(i + 1) =~= s.take(i) + one);
    lemma_utf8_len_concat(s.take(i), one);
    assert(one.drop_first() =~= Seq::<char>::empty());
    assert(utf8_len(one.drop_first()) == 0);
    assert(utf8_len(one) == utf8_width(s[i]));
    assert(s =~= s.take(i) + s.skip(i));
    lemma_utf8_len_concat(s.take(i), s.skip(i));
    assert(utf8_len(s) == utf8_len(s.take(i)) + utf8_len(s.skip(i)));
}

proof fn lemma_utf8_len_encode(s: Seq<char>)
    ensures
        utf8_len(s) == vstd::utf8::encode_utf8(s).len(),
    decreases s.len(),
{
    if s.len() > 0 {
        vstd::utf8::char_is_scalar(s[0]);
        lemma_utf8_len_encode(s.drop_first());
    }
}

/// The characters of `s`, in order.
pub fn chars_of(s: &str) -> (v: Vec<char>)
    ensures
        v@ == s@,
{
    let mut v: Vec<char> = Vec::new();
    for c in it: s.chars()
        invariant
            v@ == it.seq().take(it.index() as int),
            it.seq() == s@,
    {
        v.push(c);
    }
    v
}

/// `str::len`: the number of bytes of the UTF-8 encoding of `s`.
pub fn byte_len(s: &str) -> (n: usize)
    ensures
        n == utf8_len(s@),
{
    let bytes = s.as_bytes();
    proof {
        lemma_utf8_len_encode(s@);
    }
    bytes.len()
}

/// The characters `a..b` of `s` as a new string.
pub fn substring(s: &str, a: usize, b: usize) -> (res: String)
    requires
        a <= b <= s@.len(),
    ensures
        res@ == s@.subrange(a as int, b as int),
{
    String::from_str(s.substring_char(a, b))
}

/// The first index at or after `lo` (and at most `hi`) of a character not in `set`.
fn front_stop(v: &Vec<char>, lo: usize, hi: usize, set: CharSet) -> (i: usize)
    requires
        lo <= hi <= v@.len(),
    ensures
        lo <= i <= hi,
        strip_front(v@.subrange(lo as int, hi as int), set) == v@.subrange(i as int, hi as int),
{
    let mut i: usize = lo;
    while i < hi && char_in_set(v[i], set)
        invariant
            lo <= i <= hi <= v@.len(),
            strip_front(v@.subrange(lo as int, hi as int), set) == strip_front(
                v@.subrange(i as int, hi as int),
                set,
            ),
        decreases hi - i,
    {
        assert(v@.subrange(i as int, hi as int).drop_first() =~= v@.subrange(
            i + 1,
            hi as int,
        ));
        i = i + 1;
    }
    i
}

/// The last stop (at least `lo`) going backwards from `hi` past characters in `set`.
fn back_stop(v: &Vec<char>, lo: usize, hi: usize, set: CharSet) -> (j: usize)
    requires
        lo <= hi <= v@.len(),
    ensures
        lo <= j <= hi,
        strip_back(v@.subrange(lo as int, hi as int), set) == v@.subrange(lo as int, j as int),
{
    let mut j: usize = hi;
    while j > lo && char_in_set(v[j - 1], set)
        invariant
            lo <= j <= hi <= v@.len(),
            strip_back(v@.subrange(lo as int, hi as int), set) == strip_back(
                v@.subrange(lo as int, j as int),
                set,
            ),
        decreases j - lo,
    {
        assert(v@.subrange(lo as int, j as int).drop_last() =~= v@.subrange(
            lo as int,
            j - 1,
        ));
        j = j - 1;
    }
    j
}

/// `str::trim_matches` / `trim` over a character set.
pub fn strip_chars(s: &str, set: CharSet) -> (res: String)
    ensures
        res@ == strip_both(s@, set),
{
    let v = chars_of(s);
    let n: usize = v.len();
    assert(v@.subrange(0, n as int) =~= v@);
    let i = front_stop(&v, 0, n, set);
    let j = back_stop(&v, i, n, set);
    substring(s, i, j)
}

/// `str::trim`.
pub fn trim_str(s: &str) -> (res: String)
    ensures
        res@ == trim(s@),
{
    strip_chars(s, CharSet::Whitespace)
}

/// `str::trim_end_matches` with a single character.
pub fn strip_end_char(s: &str, c: char) -> (res: String)
    ensures
        res@ == strip_back(s@, CharSet::Only(c)),
{
    let v = chars_of(s);
    let n: usize = v.len();
    assert(v@.subrange(0, n as int) =~= v@);
    let j = back_stop(&v, 0, n, CharSet::Only(c));
    substring(s, 0, j)
}

/// Whether `p` occurs in `v` at position `i`.
pub fn matches_at(v: &Vec<char>, p: &Vec<char>, i: usize) -> (b: bool)
    ensures
        b == occurs_at(v@, p@, i as int),
{
    if i > v.len() || p.len() > v.len() - i {
        return false;
    }
    let vl: usize = v.len();
    let mut k: usize = 0;
    while k < p.len()
        invariant
            vl == v@.len(),
            i + p@.len() <= v@.len(),
            0 <= k <= p@.len(),
            forall|m: int| 0 <= m < k ==> v@[i + m] == p@[m],
        decreases p@.len() - k,
    {
        if v[i + k] != p[k] {
            assert(v@.subrange(i as int, i + p@.len())[k as int] != p@[k as int]);
            return false;
        }
        k = k + 1;
    }
    assert(v@.subrange(i as int, i + p@.len()) =~= p@);
    true
}

/// `str::starts_with`.
pub fn starts_with(s: &str, p: &str) -> (b: bool)
    ensures
        b == p@.is_prefix_of(s@),
{
    let v = chars_of(s);
    let w = chars_of(p);
    let b = matches_at(&v, &w, 0);
    assert(b == p@.is_prefix_of(s@)) by {
        if p@.len() <= s@.len() {
            assert(s@.subrange(0, p@.len() as int) =~= s@.take(p@.len() as int));
        }
    }
    b
}

/// `str::strip_prefix`.
pub fn strip_prefix(s: &str, p: &str) -> (res: Option<String>)
    ensures
        p@.is_prefix_of(s@) ==> (res matches Some(r) && r@ == s@.skip(p@.len() as int)),
        !p@.is_prefix_of(s@) ==> res is None,
{
    if starts_with(s, p) {
        let n: usize = s.unicode_len();
        let m: usize = p.unicode_len();
        let r = substring(s, m, n);
        assert(r@ =~= s@.skip(m as int));
        Some(r)
    } else {
        None
    }
}

/// The first position at or after `from` where `p` occurs in `v`.
pub fn find_in(v: &Vec<char>, p: &Vec<char>, from: usize) -> (res: Option<usize>)
    ensures
        match res {
            Some(i) => find_from(v@, p@, from as int) == Some(i as int),
            None => find_from(v@, p@, from as int) is None,
        },
{
    if p.len() > v.len() || from > v.len() - p.len() {
        return None;
    }
    let last: usize = v.len() - p.len();
    let mut i: usize = from;
    loop
        invariant
            from <= i <= last,
            last + p@.len() == v@.len(),
            find_from(v@, p@, from as int) == find_from(v@, p@, i as int),
        decreases last - i,
    {
        if matches_at(v, p, i) {
            return Some(i);
        }
        if i == last {
            assert(find_from(v@, p@, i + 1) is None);
            return None;
        }
        i = i + 1;
    }
}

/// `str::find`, counted in characters.
pub fn find_str(s: &str, p: &str) -> (res: Option<usize>)
    ensures
        match res {
            Some(i) => find(s@, p@) == Some(i as int),
            None => find(s@, p@) is None,
        },
{
    let v = chars_of(s);
    let w = chars_of(p);
    find_in(&v, &w, 0)
}

/// `str::trim_start_matches` with a string pattern.
pub fn strip_prefixes_str(s: &str, p: &str) -> (res: String)
    ensures
        res@ == strip_prefixes(s@, p@),
{
    let v = chars_of(s);
    let w = chars_of(p);
    let n: usize = v.len();
    let m: usize = w.len();
    let mut i: usize = 0;
    assert(s@.skip(0) =~= s@);
    while m > 0 && matches_at(&v, &w, i)
        invariant
            v@ == s@,
            w@ == p@,
            m == p@.len(),
            n == s@.len(),
            0 <= i <= n,
            strip_prefixes(s@, p@) == strip_prefixes(s@.skip(i as int), p@),
        decreases n - i,
    {
        assert(p@.is_prefix_of(s@.skip(i as int))) by {
            assert(s@.skip(i as int).subrange(0, m as int) =~= s@.subrange(i as int, i + m));
        }
        assert(s@.skip(i as int).skip(m as int) =~= s@.skip(i + m));
        i = i + m;
    }
    assert(!(p@.len() > 0 && p@.is_prefix_of(s@.skip(i as int)))) by {
        if p@.len() > 0 && p@.is_prefix_of(s@.skip(i as int)) {
            assert(s@.skip(i as int).subrange(0, m as int) =~= s@.subrange(i as int, i + m));
        }
    }
    let r = substring(s, i, n);
    assert(r@ =~= s@.skip(i as int));
    r
}

/// `str::trim_end_matches` with a string pattern.
pub fn strip_suffixes_str(s: &str, p: &str) -> (res: String)
    ensures
        res@ == strip_suffixes(s@, p@),
{
    let v = chars_of(s);
    let w = chars_of(p);
    let n: usize = v.len();
    let m: usize = w.len();
    let mut j: usize = n;
    assert(s@.take(n as int) =~= s@);
    while m > 0 && j >= m && matches_at(&v, &w, j - m)
        invariant
            v@ == s@,
            w@ == p@,
            m == p@.len(),
            n == s@.len(),
            0 <= j <= n,
            strip_suffixes(s@, p@) == strip_suffixes(s@.take(j as int), p@),
        decreases j,
    {
        assert(p@.is_suffix_of(s@.take(j as int))) by {
            assert(s@.take(j as int).subrange(j - m, j as int) =~= s@.subrange(j - m, j as int));
        }
        assert(s@.take(j as int).take(j - m) =~= s@.take(j - m));
        j = j - m;
    }
    assert(!(p@.len() > 0 && p@.is_suffix_of(s@.take(j as int)))) by {
        if p@.len() > 0 && p@.is_suffix_of(s@.take(j as int)) {
            assert(s@.take(j as int).subrange(j - m, j as int) =~= s@.subrange(j - m, j as int));
        }
    }
    let r = substring(s, 0, j);
    assert(r@ =~= s@.take(j as int));
    r
}

/// `s.chars().take(n).collect::<String>()`.
pub fn take_chars_str(s: &str, n: usize) -> (res: String)
    ensures
        res@ == take_chars(s@, n as int),
{
    let len: usize = s.unicode_len();
    if n < len {
        let r = substring(s, 0, n);
        assert(r@ =~= s@.take(n as int));
        r
    } else {
        let r = String::from_str(s);
        r
    }
}

/// The number of characters of `s` (`chars().count()`).
pub fn char_count(s: &str) -> (n: usize)
    ensures
        n == s@.len(),
{
    s.unicode_len()
}

/// Appends the decimal notation of `n` to `out`.
pub fn push_decimal(out: &mut String, n: u64)
    ensures
        final(out)@ == old(out)@ + decimal(n as nat),
    decreases n,
{
    let ghost start = out@;
    if n >= 10 {
        push_decimal(out, n / 10);
    }
    let d: usize = (n % 10) as usize;
    let digits = "0123456789";
    proof {
        reveal_strlit("0123456789");
        assert(digits@ =~= seq!['0', '1', '2', '3', '4', '5', '6', '7', '8', '9']);
    }
    out.append(digits.substring_char(d, d + 1));
    proof {
        if n >= 10 {
            assert(out@ =~= start + decimal(n as nat));
        } else {
            assert(out@ =~= start + decimal(n as nat));
        }
    }
}

/// The decimal notation of `n` (`n.to_string()`).
pub fn decimal_string(n: u64) -> (res: String)
    ensures
        res@ == decimal(n as nat),
{
    let mut out = String::new();
    push_decimal(&mut out, n);
    assert(out@ =~= decimal(n as nat));
    out
}

/// Concatenation of two strings.
pub fn concat(a: &str, b: &str) -> (res: String)
    ensures
        res@ == a@ + b@,
{
    let mut r = String::from_str(a);
    r.append(b);
    r
}

/// Equality of two strings by their characters.
pub fn str_eq(a: &str, b: &str) -> (res: bool)
    ensures
        res == (a@ == b@),
{
    let x = String::from_str(a);
    let y = String::from_str(b);
    x == y
}

pub proof fn lemma_find_occurs(s: Seq<char>, p: Seq<char>, from: int, i: int)
    requires
        find_from(s, p, from) == Some(i),
    ensures
        occurs_at(s, p, i),
        from <= i,
    decreases s.len() + 1 - from,
{
    if from < 0 || from + p.len() > s.len() {
    } else if occurs_at(s, p, from) {
    } else {
        lemma_find_occurs(s, p, from + 1, i);
    }
}

/// ASCII upper-case letters folded to lower case.
pub open spec fn ascii_fold(c: u32) -> u32 {
    if 65 <= c <= 90 {
        (c + 32) as u32
    } else {
        c
    }
}

/// A character's code point, with ASCII upper case folded to lower case.
pub fn fold_char(c: char) -> (r: u32)
    ensures
        r == ascii_fold(c as u32),
{
    let x = c as u32;
    if 65 <= x && x <= 90 {
        x + 32
    } else {
        x
    }
}

} // verus!
