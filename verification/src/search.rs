//! The tokens by which memories are matched against a query: character
//! 1-, 2- and 3-grams (which suit Chinese text) and whitespace-separated
//! words.
use vstd::prelude::*;

use crate::stream::string_views;
use crate::text::{
    chars_of, is_whitespace, is_whitespace_char, std_lowercase, str_eq, substring, to_lowercase,
};

verus! {

/// The characters of `s` that are not whitespace.
pub open spec fn non_whitespace(s: Seq<char>) -> Seq<char> {
    s.filter(|c: char| !is_whitespace(c))
}

/// `slice::windows(size)`, each window as a string.
pub open spec fn windows(s: Seq<char>, size: int) -> Seq<Seq<char>> {
    Seq::new(
        if s.len() >= size {
            (s.len() - size + 1) as nat
        } else {
            0
        },
        |i: int| s.subrange(i, i + size),
    )
}

/// The index of the first whitespace character of `s`, or its length.
pub open spec fn word_end(s: Seq<char>) -> int
    decreases s.len(),
{
    if s.len() == 0 {
        0
    } else if is_whitespace(s[0]) {
        0
    } else {
        1 + word_end(s.drop_first())
    }
}

pub proof fn lemma_word_end(s: Seq<char>, e: int)
    requires
        0 <= e <= s.len(),
        forall|j: int| 0 <= j < e ==> !is_whitespace(#[trigger] s[j]),
        e == s.len() || is_whitespace(s[e]),
    ensures
        word_end(s) == e,
    decreases e,
{
    if e > 0 {
        lemma_word_end(s.drop_first(), e - 1);
    }
}

pub proof fn lemma_word_end_bounds(s: Seq<char>)
    ensures
        0 <= word_end(s) <= s.len(),
        s.len() > 0 && !is_whitespace(s[0]) ==> word_end(s) >= 1,
    decreases s.len(),
{
    if s.len() > 0 && !is_whitespace(s[0]) {
        lemma_word_end_bounds(s.drop_first());
    }
}

/// `str::split_whitespace`: the maximal runs of non-whitespace characters.
pub open spec fn words(s: Seq<char>) -> Seq<Seq<char>>
    decreases s.len(),
{
    if s.len() == 0 {
        seq![]
    } else if is_whitespace(s[0]) {
        words(s.drop_first())
    } else {
        let e = word_end(s);
        proof {
            lemma_word_end_bounds(s);
        }
        seq![s.take(e)] + words(s.skip(e))
    }
}

/// The tokens of `tokens`: the 1-, 2- and 3-character windows of the
/// lowercased text without whitespace, then its lowercased words.
pub open spec fn token_seq(text: Seq<char>) -> Seq<Seq<char>> {
    let chars = non_whitespace(std_lowercase(text));
    windows(chars, 1) + windows(chars, 2) + windows(chars, 3) + words(text).map_values(
        |w: Seq<char>| std_lowercase(w),
    )
}

fn non_whitespace_string(s: &str) -> (res: String)
    ensures
        res@ == non_whitespace(s@),
{
    let v = chars_of(s);
    let mut out = String::new();
    let mut i: usize = 0;
    assert(s@.take(0).filter(|c: char| !is_whitespace(c)) =~= Seq::<char>::empty());
    while i < v.len()
        invariant
            0 <= i <= v@.len(),
            v@ == s@,
            out@ == s@.take(i as int).filter(|c: char| !is_whitespace(c)),
        decreases v@.len() - i,
    {
        assert(s@.take(i + 1).drop_last() =~= s@.take(i as int));
        reveal_with_fuel(Seq::filter, 1);
        if !is_whitespace_char(v[i]) {
            let one = substring(s, i, i + 1);
            assert(one@ =~= seq![s@[i as int]]);
            out.append(one.as_str());
        }
        i = i + 1;
    }
    assert(s@.take(i as int) =~= s@);
    out
}

fn push_windows(out: &mut Vec<String>, s: &str, size: usize)
    requires
        size >= 1,
    ensures
        string_views(final(out)@) == string_views(old(out)@) + windows(s@, size as int),
{
    let n: usize = s.unicode_len();
    let ghost w = windows(s@, size as int);
    let ghost start = string_views(out@);
    let mut i: usize = 0;
    while n >= size && i <= n - size
        invariant
            n == s@.len(),
            size >= 1,
            w == windows(s@, size as int),
            0 <= i,
            n >= size ==> i <= n - size + 1,
            n < size ==> i == 0,
            string_views(out@) == start + w.take(i as int),
        decreases n + 1 - i,
    {
        let ghost before = out@;
        let piece = substring(s, i, i + size);
        out.push(piece);
        assert(string_views(out@) =~= string_views(before).push(piece@));
        assert(w.take(i + 1) =~= w.take(i as int).push(w[i as int]));
        i = i + 1;
    }
    assert(w.take(i as int) =~= w);
}

fn push_words(out: &mut Vec<String>, s: &str)
    ensures
        string_views(final(out)@) == string_views(old(out)@) + words(s@).map_values(
            |w: Seq<char>| std_lowercase(w),
        ),
{
    let v = chars_of(s);
    let n: usize = v.len();
    let ghost start = string_views(out@);
    let mut pos: usize = 0;
    assert(s@.skip(0) =~= s@);
    while pos < n
        invariant
            v@ == s@,
            n == s@.len(),
            0 <= pos <= n,
            start + words(s@).map_values(|w: Seq<char>| std_lowercase(w)) == string_views(out@)
                + words(s@.skip(pos as int)).map_values(|w: Seq<char>| std_lowercase(w)),
        decreases n - pos,
    {
        let ghost t = s@.skip(pos as int);
        assert(t[0] == v@[pos as int]);
        if is_whitespace_char(v[pos]) {
            assert(t.drop_first() =~= s@.skip(pos + 1));
            pos = pos + 1;
        } else {
            let mut j: usize = pos;
            while j < n && !is_whitespace_char(v[j])
                invariant
                    v@ == s@,
                    n == s@.len(),
                    pos <= j <= n,
                    forall|m: int| pos <= m < j ==> !is_whitespace(#[trigger] v@[m]),
                decreases n - j,
            {
                j = j + 1;
            }
            proof {
                assert forall|m: int| 0 <= m < j - pos implies !is_whitespace(#[trigger] t[m]) by {
                    assert(t[m] == v@[pos + m]);
                }
                lemma_word_end(t, j - pos);
                assert(t.skip(j - pos) =~= s@.skip(j as int));
            }
            let word = substring(s, pos, j);
            assert(word@ =~= t.take(j - pos));
            let lower = to_lowercase(word.as_str());
            let ghost before = out@;
            out.push(lower);
            proof {
                assert(string_views(out@) =~= string_views(before).push(std_lowercase(word@)));
                let f = |w: Seq<char>| std_lowercase(w);
                assert(words(t) == seq![t.take(j - pos)] + words(s@.skip(j as int)));
                assert((seq![t.take(j - pos)] + words(s@.skip(j as int))).map_values(f) =~= seq![
                    std_lowercase(word@),
                ] + words(s@.skip(j as int)).map_values(f));
            }
            pos = j;
        }
    }
    assert(s@.skip(n as int) =~= Seq::<char>::empty());
    assert(string_views(out@) + Seq::<Seq<char>>::empty() =~= string_views(out@));
}

/// `tokens`: the search tokens of a text.
pub fn tokens(text: &str) -> (res: Vec<String>)
    ensures
        string_views(res@) == token_seq(text@),
{
    let lower = to_lowercase(text);
    let chars = non_whitespace_string(lower.as_str());
    let mut out: Vec<String> = Vec::new();
    push_windows(&mut out, chars.as_str(), 1);
    push_windows(&mut out, chars.as_str(), 2);
    push_windows(&mut out, chars.as_str(), 3);
    push_words(&mut out, text);
    assert(string_views(out@) =~= token_seq(text@));
    out
}

/// How many query tokens (counted with repetition) occur among the memory
/// tokens.
pub open spec fn overlap(query: Seq<Seq<char>>, memory: Seq<Seq<char>>) -> nat {
    query.filter(|t: Seq<char>| memory.contains(t)).len()
}

pub fn contains_token(tokens: &Vec<String>, t: &str) -> (b: bool)
    ensures
        b == string_views(tokens@).contains(t@),
{
    let ghost tv = string_views(tokens@);
    let mut i: usize = 0;
    while i < tokens.len()
        invariant
            0 <= i <= tokens@.len(),
            tv == string_views(tokens@),
            forall|j: int| 0 <= j < i ==> tv[j] != t@,
        decreases tokens@.len() - i,
    {
        assert(tv[i as int] == tokens@[i as int]@);
        if str_eq(tokens[i].as_str(), t) {
            assert(tv[i as int] == t@);
            return true;
        }
        i = i + 1;
    }
    false
}

/// The overlap between a query's tokens and a memory's tokens.
pub fn token_overlap(query_tokens: &Vec<String>, memory_tokens: &Vec<String>) -> (n: usize)
    ensures
        n == overlap(string_views(query_tokens@), string_views(memory_tokens@)),
{
    let ghost q = string_views(query_tokens@);
    let ghost m = string_views(memory_tokens@);
    let mut n: usize = 0;
    let mut i: usize = 0;
    assert(q.take(0).filter(|t: Seq<char>| m.contains(t)) =~= Seq::<Seq<char>>::empty());
    while i < query_tokens.len()
        invariant
            0 <= i <= query_tokens@.len(),
            q == string_views(query_tokens@),
            m == string_views(memory_tokens@),
            n == q.take(i as int).filter(|t: Seq<char>| m.contains(t)).len(),
            n <= i,
        decreases query_tokens@.len() - i,
    {
        assert(q.take(i + 1).drop_last() =~= q.take(i as int));
        assert(q[i as int] == query_tokens@[i as int]@);
        reveal_with_fuel(Seq::filter, 1);
        if contains_token(memory_tokens, query_tokens[i].as_str()) {
            n = n + 1;
        }
        i = i + 1;
    }
    assert(q.take(i as int) =~= q);
    n
}

} // verus!
