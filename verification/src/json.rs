//! JSON values as the library reads them.
//!
//! [`Json`] is a plain tree that verified code can inspect and build. Turning
//! a tree into text and text into a tree is left to `serde_json`: the two
//! functions that do so are trusted, and what they return is named rather
//! than spelled out.

use vstd::prelude::*;
use serde_json::Value;
use crate::text::str_eq;

verus! {

/// A JSON number. An integer is held by its value; any other number is held
/// by its decimal text.
#[derive(Debug)]
pub enum JsonNumber {
    /// A non-negative integer.
    PosInt(u64),
    /// A negative integer.
    NegInt(i64),
    /// A number with a fraction or an exponent, as text.
    Real(String),
}

/// A JSON value.
#[derive(Debug)]
pub enum Json {
    Null,
    Bool(bool),
    Number(JsonNumber),
    Text(String),
    Array(Vec<Json>),
    /// The members of an object, in the order in which they were added. Where
    /// a key occurs twice, the later member is the one that counts.
    Object(Vec<Member>),
}

/// One member of an object: a key and the value it names.
#[derive(Debug)]
pub struct Member {
    pub key: String,
    pub value: Json,
}

/// A JSON number as a mathematical value.
pub enum NumberView {
    Int(int),
    Real(Seq<char>),
}

/// A JSON value as a mathematical tree.
pub enum JsonView {
    Null,
    Bool(bool),
    Number(NumberView),
    Text(Seq<char>),
    Array(Seq<JsonView>),
    Object(Seq<MemberView>),
}

/// One member of an object as a mathematical value.
pub struct MemberView {
    pub key: Seq<char>,
    pub value: JsonView,
}

impl View for JsonNumber {
    type V = NumberView;

    open spec fn view(&self) -> NumberView {
        match self {
            JsonNumber::PosInt(n) => NumberView::Int(*n as int),
            JsonNumber::NegInt(n) => NumberView::Int(*n as int),
            JsonNumber::Real(s) => NumberView::Real(s@),
        }
    }
}

impl View for Json {
    type V = JsonView;

    open spec fn view(&self) -> JsonView
        decreases self,
    {
        match self {
            Json::Null => JsonView::Null,
            Json::Bool(b) => JsonView::Bool(*b),
            Json::Number(n) => JsonView::Number(n@),
            Json::Text(s) => JsonView::Text(s@),
            Json::Array(items) => JsonView::Array(
                Seq::new(
                    items@.len(),
                    |i: int|
                        if 0 <= i < items.len() {
                            items[i].view()
                        } else {
                            JsonView::Null
                        },
                ),
            ),
            Json::Object(members) => JsonView::Object(
                Seq::new(
                    members@.len(),
                    |i: int|
                        if 0 <= i < members.len() {
                            MemberView { key: members[i].key@, value: members[i].value.view() }
                        } else {
                            MemberView { key: Seq::empty(), value: JsonView::Null }
                        },
                ),
            ),
        }
    }
}


/// The member that `key` names among `members`: the last one with that key.
pub open spec fn member(members: Seq<MemberView>, key: Seq<char>) -> Option<JsonView>
    decreases members.len(),
{
    if members.len() == 0 {
        None
    } else if members.last().key == key {
        Some(members.last().value)
    } else {
        member(members.drop_last(), key)
    }
}

/// The views of the elements of an array.
pub open spec fn item_views(items: Seq<Json>) -> Seq<JsonView> {
    items.map_values(|j: Json| j@)
}

impl JsonView {
    /// The member that `key` names, when the value is an object that has one.
    pub open spec fn get(self, key: Seq<char>) -> Option<JsonView> {
        match self {
            JsonView::Object(members) => member(members, key),
            _ => None,
        }
    }

    /// The element at `index`, when the value is an array that long.
    pub open spec fn at(self, index: int) -> Option<JsonView> {
        match self {
            JsonView::Array(items) => if 0 <= index < items.len() {
                Some(items[index])
            } else {
                None
            },
            _ => None,
        }
    }

    /// The characters of a string value.
    pub open spec fn as_str(self) -> Option<Seq<char>> {
        match self {
            JsonView::Text(s) => Some(s),
            _ => None,
        }
    }

    /// The value as a `u64`, if it is an integer in that range.
    pub open spec fn as_u64(self) -> Option<u64> {
        match self {
            JsonView::Number(NumberView::Int(n)) => if 0 <= n <= u64::MAX {
                Some(n as u64)
            } else {
                None
            },
            _ => None,
        }
    }

    /// The value as an `i64`, if it is an integer in that range.
    pub open spec fn as_i64(self) -> Option<i64> {
        match self {
            JsonView::Number(NumberView::Int(n)) => if i64::MIN <= n <= i64::MAX {
                Some(n as i64)
            } else {
                None
            },
            _ => None,
        }
    }

    /// The string that `key` names, when there is such a member and it is a string.
    pub open spec fn str_at(self, key: Seq<char>) -> Option<Seq<char>> {
        match self.get(key) {
            Some(v) => v.as_str(),
            None => None,
        }
    }

    /// The string that `key` names, or the empty string.
    pub open spec fn str_or_empty(self, key: Seq<char>) -> Seq<char> {
        match self.str_at(key) {
            Some(s) => s,
            None => Seq::empty(),
        }
    }
}

impl Clone for JsonNumber {
    fn clone(&self) -> (r: Self)
        ensures
            r@ == self@,
    {
        match self {
            JsonNumber::PosInt(n) => JsonNumber::PosInt(*n),
            JsonNumber::NegInt(n) => JsonNumber::NegInt(*n),
            JsonNumber::Real(s) => JsonNumber::Real(s.clone()),
        }
    }
}

impl Clone for Json {
    fn clone(&self) -> (r: Self)
        ensures
            r@ == self@,
        decreases self,
    {
        match self {
            Json::Null => Json::Null,
            Json::Bool(b) => Json::Bool(*b),
            Json::Number(n) => Json::Number(n.clone()),
            Json::Text(s) => Json::Text(s.clone()),
            Json::Array(items) => {
                let mut copy: Vec<Json> = Vec::new();
                let mut i: usize = 0;
                while i < items.len()
                    invariant
                        i <= items.len(),
                        copy.len() == i,
                        *self == Json::Array(*items),
                        forall|j: int| 0 <= j < i ==> (#[trigger] copy[j])@ == items[j]@,
                    decreases items.len() - i,
                {
                    assert(*items == self->Array_0);
                    assert(decreases_to!(*self => self->Array_0));
                    assert(decreases_to!(*items => items[i as int]));
                    assert(decreases_to!(*self => items[i as int]));
                    copy.push(items[i].clone());
                    i += 1;
                }
                let r = Json::Array(copy);
                assert(r@ == self@) by {
                    assert(r@->Array_0 =~= self@->Array_0);
                }
                r
            },
            Json::Object(members) => {
                let mut copy: Vec<Member> = Vec::new();
                let mut i: usize = 0;
                while i < members.len()
                    invariant
                        i <= members.len(),
                        copy.len() == i,
                        *self == Json::Object(*members),
                        forall|j: int|
                            0 <= j < i ==> (#[trigger] copy[j]).key@ == members[j].key@
                                && copy[j].value@ == members[j].value@,
                    decreases members.len() - i,
                {
                    assert(*members == self->Object_0);
                    assert(decreases_to!(*self => self->Object_0));
                    assert(decreases_to!(*members => members[i as int]));
                    assert(decreases_to!(*self => members[i as int].value));
                    copy.push(Member { key: members[i].key.clone(), value: members[i].value.clone() });
                    i += 1;
                }
                let r = Json::Object(copy);
                assert(r@ == self@) by {
                    assert(r@->Object_0 =~= self@->Object_0);
                }
                r
            },
        }
    }
}

impl Clone for Member {
    fn clone(&self) -> (r: Self)
        ensures
            r.key@ == self.key@,
            r.value@ == self.value@,
    {
        Member { key: self.key.clone(), value: self.value.clone() }
    }
}

impl Json {
    /// Looks a member of an object up by its key.
    pub fn get(&self, key: &str) -> (found: Option<&Json>)
        ensures
            match found {
                Some(v) => self@.get(key@) == Some(v@),
                None => self@.get(key@) is None,
            },
    {
        match self {
            Json::Object(members) => {
                let ghost all = self@->Object_0;
                let mut i: usize = members.len();
                proof {
                    assert(all.len() == members.len());
                    assert(all.take(i as int) =~= all);
                }
                while i > 0
                    invariant
                        i <= members.len(),
                        all.len() == members.len(),
                        self@.get(key@) == member(all, key@),
                        forall|j: int|
                            0 <= j < members.len() ==> (#[trigger] all[j]).key == members[j].key@
                                && all[j].value == members[j].value@,
                        member(all, key@) == member(all.take(i as int), key@),
                    decreases i,
                {
                    proof {
                        assert(all.take(i as int).drop_last() =~= all.take(i - 1));
                        assert(all.take(i as int).last() == all[i - 1]);
                    }
                    if str_eq(members[i - 1].key.as_str(), key) {
                        return Some(&members[i - 1].value);
                    }
                    i -= 1;
                }
                assert(all.take(0).len() == 0);
                None
            },
            _ => None,
        }
    }

    /// The element of an array at `index`.
    pub fn at(&self, index: usize) -> (found: Option<&Json>)
        ensures
            match found {
                Some(v) => self@.at(index as int) == Some(v@),
                None => self@.at(index as int) is None,
            },
    {
        match self {
            Json::Array(items) => if index < items.len() {
                Some(&items[index])
            } else {
                None
            },
            _ => None,
        }
    }

    /// The characters of a string value.
    pub fn as_str(&self) -> (text: Option<&str>)
        ensures
            match text {
                Some(s) => self@.as_str() == Some(s@),
                None => self@.as_str() is None,
            },
    {
        match self {
            Json::Text(s) => Some(s.as_str()),
            _ => None,
        }
    }

    /// The elements of an array value.
    pub fn as_array(&self) -> (items: Option<&Vec<Json>>)
        ensures
            match items {
                Some(v) => self@ == JsonView::Array(item_views(v@)),
                None => !(self@ is Array),
            },
    {
        proof {
            if let Json::Array(v) = self {
                assert(self@->Array_0 =~= item_views(v@));
            }
        }
        match self {
            Json::Array(items) => Some(items),
            _ => None,
        }
    }

    /// Whether the value is an array.
    pub fn is_array(&self) -> (b: bool)
        ensures
            b == (self@ is Array),
    {
        match self {
            Json::Array(_) => true,
            _ => false,
        }
    }

    /// The value as a `u64`, if it is an integer in that range.
    pub fn as_u64(&self) -> (n: Option<u64>)
        ensures
            n == self@.as_u64(),
    {
        match self {
            Json::Number(JsonNumber::PosInt(n)) => Some(*n),
            Json::Number(JsonNumber::NegInt(n)) => if *n >= 0 {
                Some(*n as u64)
            } else {
                None
            },
            _ => None,
        }
    }

    /// The value as an `i64`, if it is an integer in that range.
    pub fn as_i64(&self) -> (n: Option<i64>)
        ensures
            n == self@.as_i64(),
    {
        match self {
            Json::Number(JsonNumber::PosInt(n)) => if *n <= i64::MAX as u64 {
                Some(*n as i64)
            } else {
                None
            },
            Json::Number(JsonNumber::NegInt(n)) => Some(*n),
            _ => None,
        }
    }

    /// The string that `key` names, if the value is an object with such a
    /// member and the member is a string.
    pub fn str_at(&self, key: &str) -> (text: Option<&str>)
        ensures
            match text {
                Some(s) => self@.str_at(key@) == Some(s@),
                None => self@.str_at(key@) is None,
            },
    {
        match self.get(key) {
            Some(v) => v.as_str(),
            None => None,
        }
    }

    /// A string value.
    pub fn text(s: &str) -> (j: Json)
        ensures
            j@ == JsonView::Text(s@),
    {
        Json::Text(crate::text::owned(s))
    }

    /// A non-negative integer value.
    pub fn unsigned(n: u64) -> (j: Json)
        ensures
            j@ == JsonView::Number(NumberView::Int(n as int)),
    {
        Json::Number(JsonNumber::PosInt(n))
    }

    /// An integer value.
    pub fn integer(n: i64) -> (j: Json)
        ensures
            j@ == JsonView::Number(NumberView::Int(n as int)),
    {
        if n >= 0 {
            Json::Number(JsonNumber::PosInt(n as u64))
        } else {
            Json::Number(JsonNumber::NegInt(n))
        }
    }
}


/// `serde_json::Value`, which the library only hands to `serde_json` and back.
#[verifier::external_type_specification]
#[verifier::external_body]
pub struct ExValue(Value);

/// The compact JSON text that `serde_json` writes for a value.
pub uninterp spec fn json_text(v: JsonView) -> Seq<char>;

/// The value that `serde_json` reads from a text, or `None` where it reports an error.
pub uninterp spec fn json_parsed(text: Seq<char>) -> Option<JsonView>;

/// Builds the `serde_json::Value` that has the same shape: members are
/// inserted in order, and a number held as text is read back by
/// `serde_json::Number`'s `FromStr` (a text that is no number becomes `null`).
#[verifier::external_body]
fn to_outside(v: &Json) -> Value {
    match v {
        Json::Null => Value::Null,
        Json::Bool(b) => Value::Bool(*b),
        Json::Number(JsonNumber::PosInt(n)) => Value::from(*n),
        Json::Number(JsonNumber::NegInt(n)) => Value::from(*n),
        Json::Number(JsonNumber::Real(t)) => t.parse().map_or(Value::Null, Value::Number),
        Json::Text(s) => Value::String(s.clone()),
        Json::Array(items) => Value::Array(items.iter().map(to_outside).collect()),
        Json::Object(members) => Value::Object(
            members.iter().map(|m| (m.key.clone(), to_outside(&m.value))).collect(),
        ),
    }
}

/// Copies a `serde_json::Value` into a [`Json`] of the same shape. An integer
/// keeps its value; any other number is kept as the text that
/// `serde_json::Number` displays.
#[verifier::external_body]
fn from_outside(v: &Value) -> Json {
    match v {
        Value::Null => Json::Null,
        Value::Bool(b) => Json::Bool(*b),
        Value::Number(n) => Json::Number(match (n.as_u64(), n.as_i64()) {
            (Some(u), _) => JsonNumber::PosInt(u),
            (_, Some(i)) => JsonNumber::NegInt(i),
            _ => JsonNumber::Real(n.to_string()),
        }),
        Value::String(s) => Json::Text(s.clone()),
        Value::Array(items) => Json::Array(items.iter().map(from_outside).collect()),
        Value::Object(map) => Json::Object(
            map.iter().map(|(k, x)| Member { key: k.clone(), value: from_outside(x) }).collect(),
        ),
    }
}

/// `serde_json`'s `Display` for `Value`: the compact text of the value. The
/// text depends on nothing but the value.
#[verifier::external_body]
pub(crate) fn serde_text(v: &Json) -> (s: String)
    ensures
        s@ == json_text(v@),
{
    to_outside(v).to_string()
}

/// `serde_json::from_str` at `Value`: the value that the text denotes, or
/// `None` where the text is not one JSON value. The outcome depends on
/// nothing but the text.
#[verifier::external_body]
pub(crate) fn serde_parse(text: &str) -> (r: Option<Json>)
    ensures
        match r {
            Some(j) => json_parsed(text@) == Some(j@),
            None => json_parsed(text@) is None,
        },
{
    serde_json::from_str::<Value>(text).ok().map(|v| from_outside(&v))
}

impl Json {
    /// The compact JSON text of the value.
    pub fn render(&self) -> (s: String)
        ensures
            s@ == json_text(self@),
    {
        serde_text(self)
    }

    /// Reads one JSON value from `text`.
    pub fn parse(text: &str) -> (r: Option<Json>)
        ensures
            match r {
                Some(j) => json_parsed(text@) == Some(j@),
                None => json_parsed(text@) is None,
            },
    {
        serde_parse(text)
    }
}

/// A string member.
pub open spec fn text_member(key: Seq<char>, value: Seq<char>) -> MemberView {
    MemberView { key, value: JsonView::Text(value) }
}

/// An integer member.
pub open spec fn number_member(key: Seq<char>, value: int) -> MemberView {
    MemberView { key, value: JsonView::Number(NumberView::Int(value)) }
}

/// Makes a string member.
pub fn member_text(key: &str, value: &str) -> (m: Member)
    ensures
        (MemberView { key: m.key@, value: m.value@ }) == text_member(key@, value@),
{
    Member { key: crate::text::owned(key), value: Json::text(value) }
}

/// Makes an integer member.
pub fn member_number(key: &str, value: u64) -> (m: Member)
    ensures
        (MemberView { key: m.key@, value: m.value@ }) == number_member(key@, value as int),
{
    Member { key: crate::text::owned(key), value: Json::unsigned(value) }
}

/// Makes an object of members.
pub fn object(members: Vec<Member>) -> (j: Json)
    ensures
        j@ == JsonView::Object(
            members@.map_values(|m: Member| MemberView { key: m.key@, value: m.value@ }),
        ),
{
    let j = Json::Object(members);
    assert(j@->Object_0 =~= members@.map_values(
        |m: Member| MemberView { key: m.key@, value: m.value@ },
    ));
    j
}

/// A member with any value.
pub open spec fn value_member(key: Seq<char>, value: JsonView) -> MemberView {
    MemberView { key, value }
}

/// Makes a member with any value.
pub fn member_value(key: &str, value: Json) -> (m: Member)
    ensures
        (MemberView { key: m.key@, value: m.value@ }) == value_member(key@, value@),
{
    Member { key: crate::text::owned(key), value }
}

/// Makes a list of strings.
pub fn text_list(items: &[&str]) -> (j: Json)
    ensures
        j@ == JsonView::Array(items@.map_values(|s: &str| JsonView::Text(s@))),
{
    let mut list: Vec<Json> = Vec::new();
    let mut i: usize = 0;
    while i < items.len()
        invariant
            i <= items.len(),
            list.len() == i,
            forall|k: int| 0 <= k < i ==> (#[trigger] list@[k])@ == JsonView::Text(items@[k]@),
        decreases items.len() - i,
    {
        list.push(Json::text(items[i]));
        i += 1;
    }
    let j = Json::Array(list);
    assert(j@->Array_0 =~= items@.map_values(|s: &str| JsonView::Text(s@)));
    j
}

} // verus!
