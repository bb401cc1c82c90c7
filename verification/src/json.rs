//! A JSON document held as plain values, with the lookups that the model
//! protocols need (`get`, JSON-pointer steps, `as_str`).
use vstd::prelude::*;

use crate::text::{decimal, decimal_string, str_eq};

verus! {

/// A JSON value. Numbers keep their textual form; objects keep their
/// fields in order.
pub enum JsonValue {
    Null,
    Bool(bool),
    Number(String),
    Str(String),
    Array(Vec<JsonValue>),
    Object(Vec<(String, JsonValue)>),
}

/// The mathematical form of a [`JsonValue`].
pub enum JsonView {
    Null,
    Bool(bool),
    Number(Seq<char>),
    Str(Seq<char>),
    Array(Seq<JsonView>),
    Object(Seq<(Seq<char>, JsonView)>),
}

impl JsonValue {
    pub open spec fn view_of(self) -> JsonView
        decreases self,
    {
        match self {
            JsonValue::Null => JsonView::Null,
            JsonValue::Bool(b) => JsonView::Bool(b),
            JsonValue::Number(n) => JsonView::Number(n@),
            JsonValue::Str(s) => JsonView::Str(s@),
            JsonValue::Array(items) => JsonView::Array(
                Seq::new(
                    items@.len(),
                    |i: int|
                        if 0 <= i < items@.len() {
                            items@[i].view_of()
                        } else {
                            JsonView::Null
                        },
                ),
            ),
            JsonValue::Object(fields) => JsonView::Object(
                Seq::new(
                    fields@.len(),
                    |i: int|
                        if 0 <= i < fields@.len() {
                            (fields@[i].0@, fields@[i].1.view_of())
                        } else {
                            (Seq::empty(), JsonView::Null)
                        },
                ),
            ),
        }
    }
}

impl View for JsonValue {
    type V = JsonView;

    open spec fn view(&self) -> JsonView {
        self.view_of()
    }
}

/// The views of a list of values.
pub open spec fn views(items: Seq<JsonValue>) -> Seq<JsonView> {
    items.map_values(|x: JsonValue| x@)
}

/// The views of a list of fields.
pub open spec fn field_views(fields: Seq<(String, JsonValue)>) -> Seq<(Seq<char>, JsonView)> {
    fields.map_values(|f: (String, JsonValue)| (f.0@, f.1@))
}

/// The value of the first field named `key`, if `v` is an object.
pub open spec fn first_field(fields: Seq<(Seq<char>, JsonView)>, key: Seq<char>) -> Option<
    JsonView,
>
    decreases fields.len(),
{
    if fields.len() == 0 {
        None
    } else if fields[0].0 == key {
        Some(fields[0].1)
    } else {
        first_field(fields.drop_first(), key)
    }
}

/// `Value::get` with a string key.
pub open spec fn field(v: JsonView, key: Seq<char>) -> Option<JsonView> {
    match v {
        JsonView::Object(fields) => first_field(fields, key),
        _ => None,
    }
}

pub open spec fn is_digit(c: char) -> bool {
    '0' <= c && c <= '9'
}

/// The value of a string of decimal digits.
pub open spec fn digits_value(s: Seq<char>) -> nat
    decreases s.len(),
{
    if s.len() == 0 {
        0
    } else {
        digits_value(s.drop_last()) * 10 + ((s.last() as u32) - ('0' as u32)) as nat
    }
}

/// How a JSON pointer reads a token as an array index: decimal digits
/// without a sign or a leading zero, within `usize`.
pub open spec fn index_token(t: Seq<char>) -> Option<nat> {
    if t.len() > 0 && (forall|i: int| 0 <= i < t.len() ==> is_digit(#[trigger] t[i])) && (t[0]
        != '0' || t.len() == 1) && digits_value(t) <= usize::MAX {
        Some(digits_value(t))
    } else {
        None
    }
}

/// One step of `Value::pointer`: a field of an object, or an element of an
/// array when the token is an index.
pub open spec fn step(v: JsonView, token: Seq<char>) -> Option<JsonView> {
    match v {
        JsonView::Object(fields) => first_field(fields, token),
        JsonView::Array(items) => match index_token(token) {
            Some(i) => if i < items.len() {
                Some(items[i as int])
            } else {
                None
            },
            None => None,
        },
        _ => None,
    }
}

/// `Value::pointer` for a path given as its tokens (none holding `~`).
pub open spec fn pointer(v: JsonView, path: Seq<Seq<char>>) -> Option<JsonView>
    decreases path.len(),
{
    if path.len() == 0 {
        Some(v)
    } else {
        match step(v, path[0]) {
            Some(w) => pointer(w, path.drop_first()),
            None => None,
        }
    }
}

/// `Value::as_str` applied to an optional value.
pub open spec fn text_of(v: Option<JsonView>) -> Option<Seq<char>> {
    match v {
        Some(JsonView::Str(s)) => Some(s),
        _ => None,
    }
}

pub proof fn lemma_array_view(items: Vec<JsonValue>)
    ensures
        JsonValue::Array(items)@ == JsonView::Array(views(items@)),
{
    let v = JsonValue::Array(items);
    let t = v.view_of();
    assert(t->Array_0 =~= views(items@));
}

pub proof fn lemma_object_view(fields: Vec<(String, JsonValue)>)
    ensures
        JsonValue::Object(fields)@ == JsonView::Object(field_views(fields@)),
{
    let v = JsonValue::Object(fields);
    let t = v.view_of();
    assert(t->Object_0 =~= field_views(fields@));
}

/// A JSON array of the given values.
pub fn array(items: Vec<JsonValue>) -> (v: JsonValue)
    ensures
        v@ == JsonView::Array(views(items@)),
{
    proof {
        lemma_array_view(items);
    }
    JsonValue::Array(items)
}

/// A JSON object with the given fields, in order.
pub fn object(fields: Vec<(String, JsonValue)>) -> (v: JsonValue)
    ensures
        v@ == JsonView::Object(field_views(fields@)),
{
    proof {
        lemma_object_view(fields);
    }
    JsonValue::Object(fields)
}

/// A JSON string.
pub fn string_value(s: &str) -> (v: JsonValue)
    ensures
        v@ == JsonView::Str(s@),
{
    JsonValue::Str(String::from_str(s))
}

/// A JSON number written with the decimal notation of `n`.
pub fn number_value(n: u64) -> (v: JsonValue)
    ensures
        v@ == JsonView::Number(decimal(n as nat)),
{
    JsonValue::Number(decimal_string(n))
}

/// A JSON boolean.
pub fn bool_value(b: bool) -> (v: JsonValue)
    ensures
        v@ == JsonView::Bool(b),
{
    JsonValue::Bool(b)
}

/// A field `key: value`.
pub fn entry(key: &str, value: JsonValue) -> (f: (String, JsonValue))
    ensures
        f.0@ == key@,
        f.1 == value,
{
    (String::from_str(key), value)
}

impl JsonValue {
    /// `Value::get` with a string key: the first field named `key` of an object.
    pub fn get(&self, key: &str) -> (res: Option<&JsonValue>)
        ensures
            match res {
                Some(x) => field(self@, key@) == Some(x@),
                None => field(self@, key@) is None,
            },
    {
        match self {
            JsonValue::Object(fields) => {
                proof {
                    lemma_object_view(*fields);
                }
                let ghost fv = field_views(fields@);
                let mut i: usize = 0;
                assert(fv.skip(0) =~= fv);
                while i < fields.len()
                    invariant
                        0 <= i <= fields@.len(),
                        fv == field_views(fields@),
                        self@ == JsonView::Object(fv),
                        first_field(fv, key@) == first_field(fv.skip(i as int), key@),
                    decreases fields@.len() - i,
                {
                    assert(fv.skip(i as int)[0] == (fields@[i as int].0@, fields@[i as int].1@));
                    if str_eq(fields[i].0.as_str(), key) {
                        return Some(&fields[i].1);
                    }
                    assert(fv.skip(i as int).drop_first() =~= fv.skip(i + 1));
                    i = i + 1;
                }
                None
            },
            _ => None,
        }
    }

    /// A pointer step with a token that cannot be an array index.
    pub fn step_name(&self, token: &str) -> (res: Option<&JsonValue>)
        requires
            token@.len() > 0,
            !is_digit(token@[0]),
        ensures
            match res {
                Some(x) => step(self@, token@) == Some(x@),
                None => step(self@, token@) is None,
            },
    {
        match self {
            JsonValue::Object(_) => self.get(token),
            _ => None,
        }
    }

    /// The pointer step `0`: the first element of an array, or the field
    /// named `0` of an object.
    pub fn step_zero(&self) -> (res: Option<&JsonValue>)
        ensures
            match res {
                Some(x) => step(self@, seq!['0']) == Some(x@),
                None => step(self@, seq!['0']) is None,
            },
    {
        let zero = "0";
        proof {
            reveal_strlit("0");
            assert(zero@ =~= seq!['0']);
            let z = seq!['0'];
            assert(z.drop_last() =~= Seq::<char>::empty());
            assert(digits_value(z.drop_last()) == 0);
            assert(z.last() == '0');
            assert(digits_value(z) == 0);
            assert(z[0] == '0');
            assert(is_digit(z[0]));
            assert forall|i: int| 0 <= i < z.len() implies is_digit(#[trigger] z[i]) by {
                assert(i == 0);
            }
            assert(index_token(seq!['0']) == Some(0nat));
        }
        match self {
            JsonValue::Object(_) => self.get(zero),
            JsonValue::Array(items) => {
                proof {
                    lemma_array_view(*items);
                }
                if items.len() > 0 {
                    Some(&items[0])
                } else {
                    None
                }
            },
            _ => None,
        }
    }

    /// `Value::as_str`.
    pub fn as_str(&self) -> (res: Option<&str>)
        ensures
            match res {
                Some(s) => text_of(Some(self@)) == Some(s@),
                None => text_of(Some(self@)) is None,
            },
    {
        match self {
            JsonValue::Str(s) => Some(s.as_str()),
            _ => None,
        }
    }
}

/// A pointer token that is either `0` or cannot be an array index.
pub open spec fn token_ok(t: Seq<char>) -> bool {
    t == seq!['0'] || (t.len() > 0 && !is_digit(t[0]))
}

pub open spec fn token_views(p: Seq<&str>) -> Seq<Seq<char>> {
    p.map_values(|t: &str| t@)
}

/// `Value::pointer` along the given tokens.
pub fn follow<'a>(v: &'a JsonValue, path: &Vec<&str>) -> (res: Option<&'a JsonValue>)
    requires
        forall|i: int| 0 <= i < path@.len() ==> token_ok(#[trigger] path@[i]@),
    ensures
        match res {
            Some(x) => pointer(v@, token_views(path@)) == Some(x@),
            None => pointer(v@, token_views(path@)) is None,
        },
{
    let ghost tv = token_views(path@);
    let mut cur: &JsonValue = v;
    let mut k: usize = 0;
    assert(tv.skip(0) =~= tv);
    while k < path.len()
        invariant
            0 <= k <= path@.len(),
            tv == token_views(path@),
            forall|i: int| 0 <= i < path@.len() ==> token_ok(#[trigger] path@[i]@),
            pointer(v@, tv) == pointer(cur@, tv.skip(k as int)),
        decreases path@.len() - k,
    {
        let t: &str = path[k];
        assert(tv.skip(k as int)[0] == t@);
        assert(tv.skip(k as int).drop_first() =~= tv.skip(k + 1));
        let zero = "0";
        proof {
            reveal_strlit("0");
            assert(zero@ =~= seq!['0']);
            assert(token_ok(path@[k as int]@));
        }
        let next = if str_eq(t, zero) {
            cur.step_zero()
        } else {
            cur.step_name(t)
        };
        match next {
            Some(w) => {
                cur = w;
            },
            None => {
                return None;
            },
        }
        k = k + 1;
    }
    assert(tv.skip(k as int).len() == 0);
    Some(cur)
}

} // verus!
