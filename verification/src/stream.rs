//! Server-sent events of a streamed model reply: where events end, which
//! lines carry data, and how the reply text accumulates.
//!
//! Reading the network and parsing each payload as JSON happen outside;
//! a [`StreamReader`] is told each decoded chunk and each parsed payload.
use vstd::prelude::*;

use crate::json::{JsonValue, JsonView};
use crate::payload::{delta_of, extract_text, response_text_of, stream_delta};
use crate::provider::ProviderKind;
use crate::text::{
    byte_len, chars_of, concat, find, find_from, find_str, lemma_find_occurs, lemma_utf8_len_take, occurs_at,
    str_eq, strip_prefix, substring, trim, trim_str, utf8_len, utf8_width,
};

verus! {

pub open spec fn crlf2() -> Seq<char> {
    seq!['\r', '\n', '\r', '\n']
}

pub open spec fn lf2() -> Seq<char> {
    seq!['\n', '\n']
}

/// Where the first complete event of `b` ends, in characters, and how long
/// its separator is: a blank line written `\r\n\r\n` is looked for first,
/// and only without one a blank line written `\n\n`.
pub open spec fn sse_cut(b: Seq<char>) -> Option<(int, int)> {
    match find(b, crlf2()) {
        Some(i) => Some((i, 4)),
        None => match find(b, lf2()) {
            Some(i) => Some((i, 2)),
            None => None,
        },
    }
}

/// `sse_boundary`: the cut of [`sse_cut`] with the position counted in
/// UTF-8 bytes.
pub open spec fn sse_boundary_of(b: Seq<char>) -> Option<(nat, nat)> {
    match sse_cut(b) {
        Some((i, k)) => Some((utf8_len(b.take(i)), k as nat)),
        None => None,
    }
}

pub proof fn lemma_sse_cut(b: Seq<char>)
    ensures
        sse_cut(b) matches Some((i, k)) ==> 0 <= i && i + k <= b.len() && (k == 4 || k == 2),
{
    match find(b, crlf2()) {
        Some(i) => {
            lemma_find_occurs(b, crlf2(), 0, i);
        },
        None => match find(b, lf2()) {
            Some(i) => {
                lemma_find_occurs(b, lf2(), 0, i);
            },
            None => {},
        },
    }
}

/// Nothing before what `find_from` finds matches, and when it finds nothing
/// nothing from `from` on matches.
proof fn lemma_find_first(s: Seq<char>, p: Seq<char>, from: int)
    requires
        0 <= from,
        p.len() > 0,
    ensures
        find_from(s, p, from) matches Some(i) ==> forall|j: int|
            from <= j < i ==> !#[trigger] occurs_at(s, p, j),
        find_from(s, p, from) is None ==> forall|j: int| from <= j ==> !#[trigger] occurs_at(s, p, j),
    decreases s.len() + 1 - from,
{
    if from + p.len() > s.len() {
    } else if occurs_at(s, p, from) {
    } else {
        lemma_find_first(s, p, from + 1);
    }
}

/// The offset at which a streamed event ends is the UTF-8 byte offset of
/// the buffer's first blank line, so slicing the buffer's bytes there cuts
/// exactly one whole event: `\r\n\r\n` when the buffer holds one, counted at
/// its first occurrence, and otherwise the first `\n\n`. A buffer without a
/// blank line has no boundary yet.
pub proof fn sse_boundary_is_the_byte_offset_of_the_first_blank_line(b: Seq<char>)
    ensures
        match sse_boundary_of(b) {
            Some((pos, k)) => exists|i: int|
                #![trigger b.take(i)]
                {
                    &&& 0 <= i <= b.len()
                    &&& pos == utf8_len(b.take(i))
                    &&& (k == 4 ==> occurs_at(b, crlf2(), i) && forall|j: int|
                        0 <= j < i ==> !#[trigger] occurs_at(b, crlf2(), j))
                    &&& (k == 2 ==> occurs_at(b, lf2(), i) && (forall|j: int|
                        0 <= j < i ==> !#[trigger] occurs_at(b, lf2(), j)) && forall|j: int|
                        0 <= j ==> !#[trigger] occurs_at(b, crlf2(), j))
                    &&& (k == 4 || k == 2)
                },
            None => forall|j: int|
                0 <= j ==> !#[trigger] occurs_at(b, crlf2(), j) && !occurs_at(b, lf2(), j),
        },
{
    lemma_find_first(b, crlf2(), 0);
    lemma_find_first(b, lf2(), 0);
    match find(b, crlf2()) {
        Some(i) => {
            lemma_find_occurs(b, crlf2(), 0, i);
            assert(b.take(i) == b.take(i));
        },
        None => match find(b, lf2()) {
            Some(i) => {
                lemma_find_occurs(b, lf2(), 0, i);
                assert(b.take(i) == b.take(i));
            },
            None => {},
        },
    }
}

/// The index of the first `\n` of `s`, or its length.
pub open spec fn line_end(s: Seq<char>) -> int
    decreases s.len(),
{
    if s.len() == 0 {
        0
    } else if s[0] == '\n' {
        0
    } else {
        1 + line_end(s.drop_first())
    }
}

pub proof fn lemma_line_end(s: Seq<char>, e: int)
    requires
        0 <= e <= s.len(),
        forall|j: int| 0 <= j < e ==> s[j] != '\n',
        e == s.len() || s[e] == '\n',
    ensures
        line_end(s) == e,
    decreases e,
{
    if e > 0 {
        lemma_line_end(s.drop_first(), e - 1);
    }
}

pub proof fn lemma_line_end_bounds(s: Seq<char>)
    ensures
        0 <= line_end(s) <= s.len(),
    decreases s.len(),
{
    if s.len() > 0 && s[0] != '\n' {
        lemma_line_end_bounds(s.drop_first());
    }
}

/// A line without the `\r` of a `\r\n` ending.
pub open spec fn strip_cr(t: Seq<char>) -> Seq<char> {
    if t.len() > 0 && t.last() == '\r' {
        t.drop_last()
    } else {
        t
    }
}

/// `str::lines`: split at `\n`, a `\r` before the `\n` dropped, no empty
/// line after a final `\n`.
pub open spec fn lines(s: Seq<char>) -> Seq<Seq<char>>
    decreases s.len(),
{
    if s.len() == 0 {
        seq![]
    } else {
        let e = line_end(s);
        proof {
            lemma_line_end_bounds(s);
        }
        if e < s.len() {
            seq![strip_cr(s.take(e))] + lines(s.skip(e + 1))
        } else {
            seq![s]
        }
    }
}

/// The payload of a `data:` line, trimmed; none for other lines and for
/// the `[DONE]` marker.
pub open spec fn data_line(l: Seq<char>) -> Option<Seq<char>> {
    if "data:"@.is_prefix_of(l) {
        let d = trim(l.skip("data:"@.len() as int));
        if d == "[DONE]"@ {
            None
        } else {
            Some(d)
        }
    } else {
        None
    }
}

pub open spec fn data_payloads(ls: Seq<Seq<char>>) -> Seq<Seq<char>>
    decreases ls.len(),
{
    if ls.len() == 0 {
        seq![]
    } else {
        match data_line(ls[0]) {
            Some(d) => seq![d] + data_payloads(ls.drop_first()),
            None => data_payloads(ls.drop_first()),
        }
    }
}

/// The data payloads of one event (or of any text), in order.
pub open spec fn event_payloads(e: Seq<char>) -> Seq<Seq<char>> {
    data_payloads(lines(e))
}

/// Cutting every complete event off `b`: the payloads of those events, in
/// order, and what remains buffered.
pub open spec fn cut_events(b: Seq<char>) -> (Seq<Seq<char>>, Seq<char>)
    decreases b.len(),
{
    proof {
        lemma_sse_cut(b);
    }
    match sse_cut(b) {
        Some((i, k)) => {
            let rest = cut_events(b.skip(i + k));
            (event_payloads(b.take(i)) + rest.0, rest.1)
        },
        None => (seq![], b),
    }
}

pub open spec fn string_views(v: Seq<String>) -> Seq<Seq<char>> {
    v.map_values(|s: String| s@)
}

fn char_width(c: char) -> (w: usize)
    ensures
        w == utf8_width(c),
{
    let u = c as u32;
    if u < 0x80 {
        1
    } else if u < 0x800 {
        2
    } else if u < 0x10000 {
        3
    } else {
        4
    }
}

/// The number of UTF-8 bytes of the first `i` characters of `v`.
fn prefix_bytes(v: &Vec<char>, i: usize, total: usize) -> (n: usize)
    requires
        i <= v@.len(),
        total == utf8_len(v@),
    ensures
        n == utf8_len(v@.take(i as int)),
{
    let mut n: usize = 0;
    let mut k: usize = 0;
    assert(v@.take(0) =~= Seq::<char>::empty());
    while k < i
        invariant
            0 <= k <= i <= v@.len(),
            total == utf8_len(v@),
            n == utf8_len(v@.take(k as int)),
        decreases i - k,
    {
        proof {
            lemma_utf8_len_take(v@, k as int);
            if k + 1 < v@.len() {
                lemma_utf8_len_take(v@, k + 1);
            } else {
                assert(v@.take(k + 1) =~= v@);
            }
        }
        n = n + char_width(v[k]);
        k = k + 1;
    }
    n
}

/// `sse_boundary`: the byte position where the first complete event of
/// `buffer` ends and the length of its separator.
pub fn sse_boundary(buffer: &str) -> (res: Option<(usize, usize)>)
    ensures
        match res {
            Some((i, k)) => sse_boundary_of(buffer@) == Some((i as nat, k as nat)),
            None => sse_boundary_of(buffer@) is None,
        },
{
    let total = byte_len(buffer);
    let v = chars_of(buffer);
    let crlf = "\r\n\r\n";
    let lf = "\n\n";
    proof {
        reveal_strlit("\r\n\r\n");
        reveal_strlit("\n\n");
        assert(crlf@ =~= crlf2());
        assert(lf@ =~= lf2());
    }
    match find_str(buffer, crlf) {
        Some(i) => {
            proof {
                lemma_find_occurs(buffer@, crlf2(), 0, i as int);
            }
            Some((prefix_bytes(&v, i, total), 4))
        },
        None => match find_str(buffer, lf) {
            Some(i) => {
                proof {
                    lemma_find_occurs(buffer@, lf2(), 0, i as int);
                }
                Some((prefix_bytes(&v, i, total), 2))
            },
            None => None,
        },
    }
}

/// The first event cut of `buffer` in characters.
fn sse_cut_chars(buffer: &str) -> (res: Option<(usize, usize)>)
    ensures
        match res {
            Some((i, k)) => sse_cut(buffer@) == Some((i as int, k as int)),
            None => sse_cut(buffer@) is None,
        },
{
    let crlf = "\r\n\r\n";
    let lf = "\n\n";
    proof {
        reveal_strlit("\r\n\r\n");
        reveal_strlit("\n\n");
        assert(crlf@ =~= crlf2());
        assert(lf@ =~= lf2());
    }
    match find_str(buffer, crlf) {
        Some(i) => Some((i, 4)),
        None => match find_str(buffer, lf) {
            Some(i) => Some((i, 2)),
            None => None,
        },
    }
}

/// `str::lines`.
pub fn lines_of(s: &str) -> (res: Vec<String>)
    ensures
        string_views(res@) == lines(s@),
{
    let v = chars_of(s);
    let n: usize = v.len();
    let mut out: Vec<String> = Vec::new();
    let mut pos: usize = 0;
    assert(s@.skip(0) =~= s@);
    while pos < n
        invariant
            v@ == s@,
            n == s@.len(),
            0 <= pos <= n,
            lines(s@) == string_views(out@) + lines(s@.skip(pos as int)),
        decreases n - pos,
    {
        let ghost t = s@.skip(pos as int);
        let mut j: usize = pos;
        while j < n && v[j] != '\n'
            invariant
                v@ == s@,
                n == s@.len(),
                pos <= j <= n,
                forall|m: int| pos <= m < j ==> v@[m] != '\n',
            decreases n - j,
        {
            j = j + 1;
        }
        proof {
            assert forall|m: int| 0 <= m < j - pos implies t[m] != '\n' by {
                assert(t[m] == v@[pos + m]);
            }
            lemma_line_end(t, j - pos);
        }
        let ghost before = out@;
        if j < n {
            let line = if j > pos && v[j - 1] == '\r' {
                substring(s, pos, j - 1)
            } else {
                substring(s, pos, j)
            };
            proof {
                assert(t.take(j - pos) =~= s@.subrange(pos as int, j as int));
                if j > pos && v@[j - 1] == '\r' {
                    assert(t.take(j - pos).drop_last() =~= s@.subrange(pos as int, j - 1));
                }
                assert(line@ == strip_cr(t.take(j - pos)));
                assert(t.skip(j - pos + 1) =~= s@.skip(j + 1));
            }
            out.push(line);
            pos = j + 1;
            proof {
                assert(string_views(out@) =~= string_views(before).push(line@));
            }
        } else {
            let line = substring(s, pos, n);
            proof {
                assert(line@ =~= t);
                assert(s@.skip(n as int) =~= Seq::<char>::empty());
            }
            out.push(line);
            pos = n;
            proof {
                assert(string_views(out@) =~= string_views(before).push(line@));
            }
        }
    }
    assert(s@.skip(n as int) =~= Seq::<char>::empty());
    out
}

/// The payload of one line, as [`data_line`].
pub fn data_line_payload(line: &str) -> (res: Option<String>)
    ensures
        match res {
            Some(d) => data_line(line@) == Some(d@),
            None => data_line(line@) is None,
        },
{
    match strip_prefix(line, "data:") {
        Some(rest) => {
            let d = trim_str(rest.as_str());
            if str_eq(d.as_str(), "[DONE]") {
                None
            } else {
                Some(d)
            }
        },
        None => None,
    }
}

/// The data payloads of the lines of `s`, in order.
pub fn payloads_of(s: &str) -> (res: Vec<String>)
    ensures
        string_views(res@) == event_payloads(s@),
{
    let ls = lines_of(s);
    let ghost lv = string_views(ls@);
    let mut out: Vec<String> = Vec::new();
    let mut k: usize = 0;
    assert(lv.skip(0) =~= lv);
    while k < ls.len()
        invariant
            0 <= k <= ls@.len(),
            lv == string_views(ls@),
            lv == lines(s@),
            data_payloads(lv) == string_views(out@) + data_payloads(lv.skip(k as int)),
        decreases ls@.len() - k,
    {
        let ghost before = out@;
        assert(lv.skip(k as int)[0] == ls@[k as int]@);
        assert(lv.skip(k as int).drop_first() =~= lv.skip(k + 1));
        match data_line_payload(ls[k].as_str()) {
            Some(d) => {
                out.push(d);
                assert(string_views(out@) =~= string_views(before).push(d@));
            },
            None => {},
        }
        k = k + 1;
    }
    assert(lv.skip(k as int) =~= Seq::<Seq<char>>::empty());
    out
}

/// Cutting events off a buffer leaves no complete event behind: what stays
/// buffered is the end of the buffer, and it holds no blank line (neither
/// `\r\n\r\n` nor `\n\n`).
pub proof fn what_stays_buffered_holds_no_complete_event(b: Seq<char>)
    ensures
        cut_events(b).1.len() <= b.len(),
        cut_events(b).1 == b.skip(b.len() - cut_events(b).1.len()),
        forall|j: int| 0 <= j ==> !#[trigger] occurs_at(cut_events(b).1, crlf2(), j),
        forall|j: int| 0 <= j ==> !#[trigger] occurs_at(cut_events(b).1, lf2(), j),
    decreases b.len(),
{
    lemma_sse_cut(b);
    sse_boundary_is_the_byte_offset_of_the_first_blank_line(b);
    match sse_cut(b) {
        Some((i, k)) => {
            let tail = b.skip(i + k);
            what_stays_buffered_holds_no_complete_event(tail);
            let rest = cut_events(tail).1;
            assert(cut_events(b).1 == rest);
            assert(rest.len() <= b.len());
            assert(b.skip(b.len() - rest.len()) =~= tail.skip(tail.len() - rest.len()));
        },
        None => {
            lemma_find_first(b, crlf2(), 0);
            lemma_find_first(b, lf2(), 0);
            assert(cut_events(b).1 == b);
            assert(b.skip(0) =~= b);
        },
    }
}

/// An event of one `data:` line carries that line's payload, trimmed
/// (nothing for the `[DONE]` marker): `"data:" + x` with no line break in
/// `x` gives `[trim(x)]`.
pub proof fn a_data_line_carries_its_payload(x: Seq<char>)
    requires
        !x.contains('\n'),
    ensures
        trim(x) != "[DONE]"@ ==> event_payloads("data:"@ + x) == seq![trim(x)],
        trim(x) == "[DONE]"@ ==> event_payloads("data:"@ + x) == Seq::<Seq<char>>::empty(),
{
    reveal_strlit("data:");
    let l = "data:"@ + x;
    assert(l.len() > 0);
    assert forall|j: int| 0 <= j < l.len() implies l[j] != '\n' by {
        if j >= 5 {
            assert(l[j] == x[j - 5]);
        }
    }
    lemma_line_end(l, l.len() as int);
    assert(lines(l) == seq![l]);
    assert("data:"@.is_prefix_of(l)) by {
        assert(l.subrange(0, 5) =~= "data:"@);
    }
    assert(l.skip(5) =~= x);
    assert(seq![l].drop_first() =~= Seq::<Seq<char>>::empty());
    assert(data_payloads(Seq::<Seq<char>>::empty()) == Seq::<Seq<char>>::empty());
    assert(seq![trim(x)] + Seq::<Seq<char>>::empty() =~= seq![trim(x)]);
}

/// The state of reading one streamed reply.
pub struct StreamReader {
    pub provider: ProviderKind,
    /// Decoded text not yet cut into complete events.
    pub buffer: String,
    /// The reply text gathered so far.
    pub text: String,
}

pub open spec fn opt_value_view(v: Option<&JsonValue>) -> Option<JsonView> {
    match v {
        Some(x) => Some(x@),
        None => None,
    }
}

impl StreamReader {
    pub fn new(provider: ProviderKind) -> (r: Self)
        ensures
            r.provider == provider,
            r.buffer@ == Seq::<char>::empty(),
            r.text@ == Seq::<char>::empty(),
    {
        StreamReader { provider, buffer: String::new(), text: String::new() }
    }

    /// Adds a decoded chunk and cuts off every complete event. Returns the
    /// data payloads of those events, in order; the rest stays buffered.
    pub fn push_chunk(&mut self, chunk: &str) -> (payloads: Vec<String>)
        ensures
            string_views(payloads@) == cut_events(old(self).buffer@ + chunk@).0,
            final(self).buffer@ == cut_events(old(self).buffer@ + chunk@).1,
            final(self).text@ == old(self).text@,
            final(self).provider == old(self).provider,
    {
        self.buffer.append(chunk);
        let ghost whole = self.buffer@;
        assert(whole == old(self).buffer@ + chunk@);
        let mut out: Vec<String> = Vec::new();
        loop
            invariant
                cut_events(whole).0 == string_views(out@) + cut_events(self.buffer@).0,
                cut_events(whole).1 == cut_events(self.buffer@).1,
                self.text@ == old(self).text@,
                self.provider == old(self).provider,
            ensures
                cut_events(whole).0 == string_views(out@),
                cut_events(whole).1 == self.buffer@,
                self.text@ == old(self).text@,
                self.provider == old(self).provider,
            decreases self.buffer@.len(),
        {
            match sse_cut_chars(self.buffer.as_str()) {
                Some((i, k)) => {
                    proof {
                        lemma_sse_cut(self.buffer@);
                    }
                    let n: usize = self.buffer.as_str().unicode_len();
                    let event = substring(self.buffer.as_str(), 0, i);
                    let rest = substring(self.buffer.as_str(), i + k, n);
                    let ghost b = self.buffer@;
                    proof {
                        assert(event@ =~= b.take(i as int));
                        assert(rest@ =~= b.skip(i + k));
                    }
                    let found = payloads_of(event.as_str());
                    let ghost before = out@;
                    let mut idx: usize = 0;
                    while idx < found.len()
                        invariant
                            0 <= idx <= found@.len(),
                            string_views(out@) =~= string_views(before) + string_views(
                                found@,
                            ).take(idx as int),
                        decreases found@.len() - idx,
                    {
                        let ghost o = out@;
                        let item = String::from_str(found[idx].as_str());
                        out.push(item);
                        assert(string_views(out@) =~= string_views(o).push(item@));
                        assert(string_views(found@).take(idx + 1) =~= string_views(found@).take(
                            idx as int,
                        ).push(found@[idx as int]@));
                        idx = idx + 1;
                    }
                    assert(string_views(found@).take(idx as int) =~= string_views(found@));
                    self.buffer = rest;
                },
                None => {
                    assert(string_views(out@) + Seq::<Seq<char>>::empty() =~= string_views(out@));
                    break ;
                },
            }
        }
        out
    }

    /// Takes the parsed payload of one event line (`None` when it was not
    /// JSON). A text-carrying event extends the reply; its text is returned.
    pub fn accept_event(&mut self, value: Option<&JsonValue>) -> (delta: Option<String>)
        ensures
            final(self).buffer@ == old(self).buffer@,
            final(self).provider == old(self).provider,
            match value {
                Some(v) => match delta_of(v@, old(self).provider) {
                    Some(d) => delta matches Some(x) && x@ == d && final(self).text@
                        == old(self).text@ + d,
                    None => delta is None && final(self).text@ == old(self).text@,
                },
                None => delta is None && final(self).text@ == old(self).text@,
            },
    {
        match value {
            Some(v) => match stream_delta(v, self.provider) {
                Some(d) => {
                    self.text.append(d.as_str());
                    Some(d)
                },
                None => None,
            },
            None => None,
        }
    }

    /// The data payloads of the lines still buffered once the stream ended.
    pub fn tail_payloads(&self) -> (payloads: Vec<String>)
        ensures
            string_views(payloads@) == event_payloads(self.buffer@),
    {
        payloads_of(self.buffer.as_str())
    }

    /// Takes the parsed payload of one buffered line after the stream
    /// ended: a text-carrying event extends the reply; otherwise, while the
    /// reply is still empty, a non-empty complete-response text replaces it.
    pub fn accept_tail(&mut self, value: Option<&JsonValue>) -> (delta: Option<String>)
        ensures
            final(self).buffer@ == old(self).buffer@,
            final(self).provider == old(self).provider,
            match value {
                Some(v) => match delta_of(v@, old(self).provider) {
                    Some(d) => delta matches Some(x) && x@ == d && final(self).text@
                        == old(self).text@ + d,
                    None => delta is None && final(self).text@ == if old(self).text@.len() == 0
                        && response_text_of(v@, old(self).provider).len() > 0 {
                        response_text_of(v@, old(self).provider)
                    } else {
                        old(self).text@
                    },
                },
                None => delta is None && final(self).text@ == old(self).text@,
            },
    {
        match value {
            Some(v) => match stream_delta(v, self.provider) {
                Some(d) => {
                    self.text.append(d.as_str());
                    Some(d)
                },
                None => {
                    if self.text.as_str().unicode_len() == 0 {
                        let fallback = extract_text(v, self.provider);
                        if fallback.as_str().unicode_len() > 0 {
                            self.text = fallback;
                        }
                    }
                    None
                },
            },
            None => None,
        }
    }

    /// When no text was gathered and something other than whitespace is
    /// still buffered, the trimmed buffer: a complete JSON response that
    /// came without event framing.
    pub fn trailing_document(&self) -> (doc: Option<String>)
        ensures
            (self.text@.len() == 0 && trim(self.buffer@).len() > 0) ==> (doc matches Some(d)
                && d@ == trim(self.buffer@)),
            !(self.text@.len() == 0 && trim(self.buffer@).len() > 0) ==> doc is None,
    {
        let t = trim_str(self.buffer.as_str());
        if self.text.as_str().unicode_len() == 0 && t.as_str().unicode_len() > 0 {
            Some(t)
        } else {
            None
        }
    }

    /// Takes the parsed trailing document (`None` when it was not JSON):
    /// its complete-response text becomes the reply.
    pub fn accept_document(&mut self, value: Option<&JsonValue>)
        ensures
            final(self).buffer@ == old(self).buffer@,
            final(self).provider == old(self).provider,
            (old(self).text@.len() == 0 && trim(old(self).buffer@).len() > 0 && value is Some)
                ==> final(self).text@ == response_text_of(value->0@, old(self).provider),
            !(old(self).text@.len() == 0 && trim(old(self).buffer@).len() > 0 && value is Some)
                ==> final(self).text@ == old(self).text@,
    {
        if self.trailing_document().is_some() {
            if let Some(v) = value {
                self.text = extract_text(v, self.provider);
            }
        }
    }
}

} // verus!
