//! A JSON document model, read and written through serde_json.

use vstd::prelude::*;
use crate::text::{seq_lt, str_eq};

verus! {

/// A JSON value. Numbers hold their canonical text; object members keep
/// their order.
pub enum JsonValue {
    Null,
    Bool(bool),
    Number(String),
    Str(String),
    Array(Vec<JsonValue>),
    Object(Vec<(String, JsonValue)>),
}

/// The mathematical model of a [`JsonValue`].
pub enum JsonData {
    Null,
    Bool(bool),
    Number(Seq<char>),
    Str(Seq<char>),
    Array(Seq<JsonData>),
    Object(Seq<(Seq<char>, JsonData)>),
}

pub open spec fn data_of(v: JsonValue) -> JsonData
    decreases v,
{
    match v {
        JsonValue::Null => JsonData::Null,
        JsonValue::Bool(b) => JsonData::Bool(b),
        JsonValue::Number(n) => JsonData::Number(n@),
        JsonValue::Str(s) => JsonData::Str(s@),
        JsonValue::Array(items) => JsonData::Array(items_data(items@)),
        JsonValue::Object(ms) => JsonData::Object(members_data(ms@)),
    }
}

pub open spec fn items_data(s: Seq<JsonValue>) -> Seq<JsonData>
    decreases s,
{
    if s.len() == 0 {
        Seq::empty()
    } else {
        items_data(s.subrange(0, s.len() - 1)).push(data_of(s[s.len() - 1]))
    }
}

pub open spec fn members_data(s: Seq<(String, JsonValue)>) -> Seq<(Seq<char>, JsonData)>
    decreases s,
{
    if s.len() == 0 {
        Seq::empty()
    } else {
        members_data(s.subrange(0, s.len() - 1)).push(
            (s[s.len() - 1].0@, data_of(s[s.len() - 1].1)),
        )
    }
}

impl View for JsonValue {
    type V = JsonData;

    open spec fn view(&self) -> JsonData {
        data_of(*self)
    }
}


pub proof fn lemma_items_data(s: Seq<JsonValue>)
    ensures
        items_data(s).len() == s.len(),
        forall|i: int| 0 <= i < s.len() ==> #[trigger] items_data(s)[i] == data_of(s[i]),
    decreases s.len(),
{
    if s.len() > 0 {
        lemma_items_data(s.subrange(0, s.len() - 1));
    }
}

pub proof fn lemma_members_data(s: Seq<(String, JsonValue)>)
    ensures
        members_data(s).len() == s.len(),
        forall|i: int|
            0 <= i < s.len() ==> #[trigger] members_data(s)[i] == (s[i].0@, data_of(s[i].1)),
    decreases s.len(),
{
    if s.len() > 0 {
        lemma_members_data(s.subrange(0, s.len() - 1));
    }
}

/// The value of the first member named `key`.
pub open spec fn find_member(ms: Seq<(Seq<char>, JsonData)>, key: Seq<char>) -> Option<JsonData>
    decreases ms.len(),
{
    if ms.len() == 0 {
        None
    } else if ms[0].0 == key {
        Some(ms[0].1)
    } else {
        find_member(ms.drop_first(), key)
    }
}

/// What `Value::get` with a string key gives: the member of an object.
pub open spec fn get(v: JsonData, key: Seq<char>) -> Option<JsonData> {
    match v {
        JsonData::Object(ms) => find_member(ms, key),
        _ => None,
    }
}

/// What `Value::as_str` gives.
pub open spec fn as_str(v: JsonData) -> Option<Seq<char>> {
    match v {
        JsonData::Str(s) => Some(s),
        _ => None,
    }
}

/// `get` followed by `as_str`, where the member is there.
pub open spec fn get_str(v: JsonData, key: Seq<char>) -> Option<Seq<char>> {
    match get(v, key) {
        Some(x) => as_str(x),
        None => None,
    }
}

/// Where the first member named `key` stands, if any.
pub fn member_position(ms: &Vec<(String, JsonValue)>, key: &str) -> (r: Option<usize>)
    ensures
        r matches Some(i) ==> i < ms.len() && ms@[i as int].0@ == key@ && forall|j: int|
            0 <= j < i ==> #[trigger] ms@[j].0@ != key@,
        r is None ==> forall|j: int| 0 <= j < ms.len() ==> #[trigger] ms@[j].0@ != key@,
{
    let mut i: usize = 0;
    while i < ms.len()
        invariant
            i <= ms.len(),
            forall|j: int| 0 <= j < i ==> #[trigger] ms@[j].0@ != key@,
        decreases ms.len() - i,
    {
        if str_eq(ms[i].0.as_str(), key) {
            return Some(i);
        }
        i = i + 1;
    }
    None
}

/// The first member named `key` is the one at `i`.
pub proof fn lemma_find_member_at(ms: Seq<(Seq<char>, JsonData)>, key: Seq<char>, i: int)
    requires
        0 <= i < ms.len(),
        ms[i].0 == key,
        forall|j: int| 0 <= j < i ==> #[trigger] ms[j].0 != key,
    ensures
        find_member(ms, key) == Some(ms[i].1),
    decreases i,
{
    if i > 0 {
        assert(ms[0].0 != key);
        lemma_find_member_at(ms.drop_first(), key, i - 1);
    }
}

/// No member is named `key`.
pub proof fn lemma_find_member_none(ms: Seq<(Seq<char>, JsonData)>, key: Seq<char>)
    requires
        forall|j: int| 0 <= j < ms.len() ==> #[trigger] ms[j].0 != key,
    ensures
        find_member(ms, key) is None,
    decreases ms.len(),
{
    if ms.len() > 0 {
        assert(ms[0].0 != key);
        assert forall|j: int| 0 <= j < ms.len() - 1 implies #[trigger] ms.drop_first()[j].0 != key by {
            assert(ms.drop_first()[j] == ms[j + 1]);
        }
        lemma_find_member_none(ms.drop_first(), key);
    }
}

impl JsonValue {
    /// The member named `key` of an object.
    pub fn get(&self, key: &str) -> (r: Option<&JsonValue>)
        ensures
            r matches Some(x) ==> get(self@, key@) == Some(x@),
            r is None <==> get(self@, key@) is None,
    {
        match self {
            JsonValue::Object(ms) => {
                proof {
                    lemma_members_data(ms@);
                }
                let ghost d = members_data(ms@);
                match member_position(ms, key) {
                    Some(i) => {
                        proof {
                            assert forall|j: int| 0 <= j < i implies #[trigger] d[j].0 != key@ by {
                                assert(d[j].0 == ms@[j].0@);
                            }
                            lemma_find_member_at(d, key@, i as int);
                        }
                        Some(&ms[i].1)
                    },
                    None => {
                        proof {
                            assert forall|j: int| 0 <= j < d.len() implies #[trigger] d[j].0 != key@ by {
                                assert(d[j].0 == ms@[j].0@);
                            }
                            lemma_find_member_none(d, key@);
                        }
                        None
                    },
                }
            },
            _ => None,
        }
    }

    /// The text of a string value.
    pub fn as_str(&self) -> (r: Option<&String>)
        ensures
            r matches Some(s) ==> as_str(self@) == Some(s@),
            r is None <==> as_str(self@) is None,
    {
        match self {
            JsonValue::Str(s) => Some(s),
            _ => None,
        }
    }

    /// The member `key` of an object, where it is a string.
    pub fn get_str(&self, key: &str) -> (r: Option<&String>)
        ensures
            r matches Some(s) ==> get_str(self@, key@) == Some(s@),
            r is None <==> get_str(self@, key@) is None,
    {
        match self.get(key) {
            Some(x) => x.as_str(),
            None => None,
        }
    }
}


/// Object members stand in strictly increasing order of their names, at
/// every level: the order in which serde_json's map (a `BTreeMap`, the
/// `preserve_order` feature being off) yields them.
pub open spec fn sorted_doc(v: JsonData) -> bool
    decreases v,
{
    match v {
        JsonData::Array(xs) => forall|i: int| #![trigger xs[i]] 0 <= i < xs.len() ==> sorted_doc(xs[i]),
        JsonData::Object(ms) => {
            &&& forall|i: int, j: int| 0 <= i < j < ms.len() ==> seq_lt(#[trigger] ms[i].0, #[trigger] ms[j].0)
            &&& forall|i: int| #![trigger ms[i]] 0 <= i < ms.len() ==> sorted_doc(ms[i].1)
        },
        _ => true,
    }
}

/// Arrays and objects nest at most `n` deep.
pub open spec fn within_depth(v: JsonData, n: nat) -> bool
    decreases v,
{
    match v {
        JsonData::Array(xs) => n > 0 && forall|i: int|
            #![trigger xs[i]]
            0 <= i < xs.len() ==> within_depth(xs[i], (n - 1) as nat),
        JsonData::Object(ms) => n > 0 && forall|i: int|
            #![trigger ms[i]]
            0 <= i < ms.len() ==> within_depth(ms[i].1, (n - 1) as nat),
        _ => true,
    }
}

/// A document that serde_json writes and reads back: sorted as its map
/// keeps members, and nested less deeply than its parser's limit of 128.
pub open spec fn writable_doc(v: JsonData) -> bool {
    sorted_doc(v) && within_depth(v, 127)
}

/// `b` is `a` read back: the same document, except that a number may come
/// back as another number or as `null`.
pub open spec fn same_but_numbers(a: JsonData, b: JsonData) -> bool
    decreases a,
{
    match a {
        JsonData::Number(_) => b is Number || b is Null,
        JsonData::Array(xs) => match b {
            JsonData::Array(ys) => ys.len() == xs.len() && forall|i: int|
                #![trigger xs[i]]
                0 <= i < xs.len() ==> same_but_numbers(xs[i], ys[i]),
            _ => false,
        },
        JsonData::Object(ms) => match b {
            JsonData::Object(ns) => ns.len() == ms.len() && forall|i: int|
                #![trigger ms[i]]
                0 <= i < ms.len() ==> ns[i].0 == ms[i].0 && same_but_numbers(ms[i].1, ns[i].1),
            _ => false,
        },
        _ => b == a,
    }
}

proof fn lemma_same_find(ms: Seq<(Seq<char>, JsonData)>, ns: Seq<(Seq<char>, JsonData)>, k: Seq<char>)
    requires
        ns.len() == ms.len(),
        forall|i: int|
            #![trigger ms[i]]
            0 <= i < ms.len() ==> ns[i].0 == ms[i].0 && same_but_numbers(ms[i].1, ns[i].1),
    ensures
        find_member(ms, k) is None <==> find_member(ns, k) is None,
        find_member(ms, k) matches Some(x) ==> find_member(ns, k) matches Some(y) && same_but_numbers(x, y),
    decreases ms.len(),
{
    if ms.len() > 0 {
        assert(same_but_numbers(ms[0].1, ns[0].1));
        assert forall|i: int| #![trigger ms.drop_first()[i]] 0 <= i < ms.drop_first().len() implies ns.drop_first()[i].0
            == ms.drop_first()[i].0 && same_but_numbers(ms.drop_first()[i].1, ns.drop_first()[i].1) by {
            assert(ms.drop_first()[i] == ms[i + 1]);
        }
        lemma_same_find(ms.drop_first(), ns.drop_first(), k);
    }
}

/// A document read back gives the same members and strings as the one
/// written.
pub proof fn lemma_same_get(a: JsonData, b: JsonData, k: Seq<char>)
    requires
        same_but_numbers(a, b),
    ensures
        get(a, k) is None <==> get(b, k) is None,
        get(a, k) matches Some(x) ==> get(b, k) matches Some(y) && same_but_numbers(x, y),
        get_str(a, k) == get_str(b, k),
{
    if let JsonData::Object(ms) = a {
        if let JsonData::Object(ns) = b {
            lemma_same_find(ms, ns, k);
        }
    }
    if let Some(x) = get(a, k) {
        let y = get(b, k)->0;
        assert(same_but_numbers(x, y));
        if x is Str {
            assert(y == x);
        }
    }
}

/// The lower-case hexadecimal digit for `d < 16`.
pub open spec fn hex_digit(d: int) -> char {
    "0123456789abcdef"@[d]
}

/// `serde_json::Value`, the document that serde_json's parser hands over;
/// nothing inside it is seen here.
#[verifier::external_type_specification]
#[verifier::external_body]
pub struct ExSerdeJsonValue(serde_json::Value);

/// Names what `serde_json::from_str::<serde_json::Value>` gives for a text:
/// the document, or the text of the error.
pub uninterp spec fn json_parse(text: Seq<char>) -> Result<JsonData, Seq<char>>;

/// Converts a `serde_json::Value` into a [`JsonValue`] one variant for one:
/// a number keeps the text serde_json writes for it, an object keeps the
/// order in which serde_json's map yields its members (sorted by key).
#[verifier::external_body]
fn from_serde(v: &serde_json::Value) -> JsonValue {
    match v {
        serde_json::Value::Null => JsonValue::Null,
        serde_json::Value::Bool(b) => JsonValue::Bool(*b),
        serde_json::Value::Number(n) => JsonValue::Number(n.to_string()),
        serde_json::Value::String(s) => JsonValue::Str(s.clone()),
        serde_json::Value::Array(a) => JsonValue::Array(a.iter().map(from_serde).collect()),
        serde_json::Value::Object(m) => JsonValue::Object(
            m.iter().map(|(k, x)| (k.clone(), from_serde(x))).collect(),
        ),
    }
}

/// Names the text that `serde_json::to_string` writes of a document, once
/// it is a `serde_json::Value` (see `to_serde`): compact, object members in
/// the order of serde_json's map.
pub uninterp spec fn json_write(v: JsonData) -> Seq<char>;

/// Converts a [`JsonValue`] into a `serde_json::Value` one variant for one:
/// a number is parsed from its text, and becomes `null` where the text is
/// no JSON number; object members go into serde_json's map.
#[verifier::external_body]
fn to_serde(v: &JsonValue) -> serde_json::Value {
    match v {
        JsonValue::Null => serde_json::Value::Null,
        JsonValue::Bool(b) => serde_json::Value::Bool(*b),
        JsonValue::Number(n) => match n.parse::<serde_json::Number>() {
            Ok(x) => serde_json::Value::Number(x),
            Err(_) => serde_json::Value::Null,
        },
        JsonValue::Str(s) => serde_json::Value::String(s.clone()),
        JsonValue::Array(a) => serde_json::Value::Array(a.iter().map(to_serde).collect()),
        JsonValue::Object(m) => serde_json::Value::Object(m.iter().map(|(k, x)| (k.clone(), to_serde(x))).collect()),
    }
}

/// Calls `serde_json::to_string` on the document converted by `to_serde`:
/// the text that [`json_write`] names (writing a `Value` cannot fail). The
/// text is compact JSON: never empty, and every line break inside a string
/// is escaped, so it holds no `'\n'` or `'\r'`. A document sorted as
/// serde_json's map keeps it, and nested less than 128 deep, is read back
/// by `serde_json::from_str` with the same members and strings; only a
/// number's text is not promised to come back (floats are parsed without
/// the `float_roundtrip` feature, and a text that is no JSON number was
/// written as `null`).
#[verifier::external_body]
pub(crate) fn to_json_string(v: &JsonValue) -> (r: String)
    ensures
        r@ == json_write(v@),
        r@.len() > 0,
        !r@.contains('\n'),
        !r@.contains('\r'),
        writable_doc(v@) ==> (json_parse(r@) is Ok && same_but_numbers(v@, json_parse(r@)->Ok_0)),
{
    match serde_json::to_string(&to_serde(v)) {
        Ok(t) => t,
        Err(_) => String::new(),
    }
}

/// Calls `serde_json::from_str::<serde_json::Value>` on `text`: the parsed
/// document, or the error's message, as [`json_parse`] names them. A parsed
/// document has its members in the order of serde_json's map (sorted by
/// name) and nests less than 128 deep (the parser's recursion limit); and
/// since `'\r'` is JSON whitespace, a text that parses gives the same
/// document without a final `'\r'`.
#[verifier::external_body]
pub(crate) fn parse_json(text: &str) -> (r: Result<JsonValue, String>)
    ensures
        json_parse(text@) == (match r {
            Ok(v) => Ok::<JsonData, Seq<char>>(v@),
            Err(m) => Err::<JsonData, Seq<char>>(m@),
        }),
        r matches Ok(v) ==> writable_doc(v@),
        r is Ok && text@.len() > 0 && text@.last() == '\r' ==> json_parse(text@.drop_last()) == json_parse(
            text@,
        ),
{
    match serde_json::from_str::<serde_json::Value>(text) {
        Ok(v) => Ok(from_serde(&v)),
        Err(e) => Err(e.to_string()),
    }
}

} // verus!
