//! JSON values, their model, and the two conversions to and from text.

use vstd::prelude::*;

use crate::text::{opt_text, same, texts};

verus! {

/// A JSON value.
///
/// An object keeps its members in the order they were written; a value read
/// from text has them sorted by key. Numbers that are no 64-bit integer keep
/// their text.
#[derive(Debug, PartialEq, Eq)]
pub enum Json {
    Null,
    Bool(bool),
    Unsigned(u64),
    Signed(i64),
    Float(String),
    Str(String),
    Array(Vec<Json>),
    Object(Vec<(String, Json)>),
}

/// The mathematical content of a [`Json`] value.
#[verifier::ext_equal]
pub ghost enum JsonView {
    Null,
    Bool(bool),
    Int(int),
    Float(Seq<char>),
    Str(Seq<char>),
    Array(Seq<JsonView>),
    Object(Seq<(Seq<char>, JsonView)>),
}

impl View for Json {
    type V = JsonView;

    open spec fn view(&self) -> JsonView {
        json_view(*self)
    }
}

/// The content of a JSON value, level by level.
pub open spec fn json_view(v: Json) -> JsonView
    decreases v,
{
    match v {
        Json::Null => JsonView::Null,
        Json::Bool(b) => JsonView::Bool(b),
        Json::Unsigned(n) => JsonView::Int(n as int),
        Json::Signed(n) => JsonView::Int(n as int),
        Json::Float(text) => JsonView::Float(text@),
        Json::Str(text) => JsonView::Str(text@),
        Json::Array(items) => JsonView::Array(
            Seq::new(
                items@.len(),
                |i: int| if 0 <= i < items@.len() { json_view(items@[i]) } else { JsonView::Null },
            ),
        ),
        Json::Object(members) => JsonView::Object(
            Seq::new(
                members@.len(),
                |i: int|
                    if 0 <= i < members@.len() {
                        (members@[i].0@, json_view(members@[i].1))
                    } else {
                        (Seq::empty(), JsonView::Null)
                    },
            ),
        ),
    }
}

impl Clone for Json {
    fn clone(&self) -> (r: Self)
        ensures
            r@ == self@,
        decreases self,
    {
        match self {
            Json::Null => Json::Null,
            Json::Bool(b) => Json::Bool(*b),
            Json::Unsigned(n) => Json::Unsigned(*n),
            Json::Signed(n) => Json::Signed(*n),
            Json::Float(text) => Json::Float(text.clone()),
            Json::Str(text) => Json::Str(text.clone()),
            Json::Array(items) => {
                let mut copy: Vec<Json> = Vec::new();
                let mut i: usize = 0;
                while i < items.len()
                    invariant
                        *self == Json::Array(*items),
                        copy@.len() == i <= items@.len(),
                        forall|k: int| 0 <= k < i ==> (#[trigger] copy@[k])@ == items@[k]@,
                    decreases items.len() - i,
                {
                    proof {
                        assert(decreases_to!(*self => self->Array_0));
                    }
                    copy.push(items[i].clone());
                    i += 1;
                }
                let r = Json::Array(copy);
                assert(r@->Array_0 =~= self@->Array_0);
                r
            },
            Json::Object(members) => {
                let mut copy: Vec<(String, Json)> = Vec::new();
                let mut i: usize = 0;
                while i < members.len()
                    invariant
                        *self == Json::Object(*members),
                        copy@.len() == i <= members@.len(),
                        forall|k: int|
                            0 <= k < i ==> (#[trigger] copy@[k]).0@ == members@[k].0@
                                && copy@[k].1@ == members@[k].1@,
                    decreases members.len() - i,
                {
                    proof {
                        assert(decreases_to!(*self => self->Object_0));
                        assert(decreases_to!(*members => members@[i as int]));
                        assert(decreases_to!(members@[i as int] => members@[i as int].1));
                    }
                    copy.push((members[i].0.clone(), members[i].1.clone()));
                    i += 1;
                }
                let r = Json::Object(copy);
                assert(r@->Object_0 =~= self@->Object_0);
                r
            },
        }
    }
}

/// The contents of a list of values.
pub open spec fn items_view(items: Seq<Json>) -> Seq<JsonView> {
    items.map_values(|v: Json| v@)
}

/// The contents of a list of object members.
pub open spec fn members_view(members: Seq<(String, Json)>) -> Seq<(Seq<char>, JsonView)> {
    members.map_values(|m: (String, Json)| (m.0@, m.1@))
}

/// The value of the first member named `key`.
pub open spec fn lookup(members: Seq<(Seq<char>, JsonView)>, key: Seq<char>) -> Option<JsonView>
    decreases members.len(),
{
    if members.len() == 0 {
        None
    } else if members[0].0 == key {
        Some(members[0].1)
    } else {
        lookup(members.drop_first(), key)
    }
}

/// The members with `key` set to `value`: replaced in place when present,
/// appended otherwise.
pub open spec fn put(members: Seq<(Seq<char>, JsonView)>, key: Seq<char>, value: JsonView) -> Seq<
    (Seq<char>, JsonView),
>
    decreases members.len(),
{
    if members.len() == 0 {
        seq![(key, value)]
    } else if members[0].0 == key {
        seq![(key, value)] + members.drop_first()
    } else {
        seq![members[0]] + put(members.drop_first(), key, value)
    }
}

impl JsonView {
    /// The member `key` of an object; nothing for any other value.
    pub open spec fn get(self, key: Seq<char>) -> Option<JsonView> {
        match self {
            JsonView::Object(members) => lookup(members, key),
            _ => None,
        }
    }

    /// The member `key` of an object, and null for anything that has none.
    pub open spec fn at(self, key: Seq<char>) -> JsonView {
        match self.get(key) {
            Some(v) => v,
            None => JsonView::Null,
        }
    }

    /// The text of a string value.
    pub open spec fn text(self) -> Option<Seq<char>> {
        match self {
            JsonView::Str(text) => Some(text),
            _ => None,
        }
    }

    /// The value of a boolean.
    pub open spec fn boolean(self) -> Option<bool> {
        match self {
            JsonView::Bool(b) => Some(b),
            _ => None,
        }
    }

    /// The value of an integer between `low` and `high`.
    pub open spec fn int_within(self, low: int, high: int) -> Option<int> {
        match self {
            JsonView::Int(n) => if low <= n <= high {
                Some(n)
            } else {
                None
            },
            _ => None,
        }
    }

    /// The value of an integer that fits an unsigned 64-bit number.
    pub open spec fn unsigned(self) -> Option<int> {
        self.int_within(0, u64::MAX as int)
    }

    /// The value of an integer that fits a signed 64-bit number.
    pub open spec fn signed(self) -> Option<int> {
        self.int_within(i64::MIN as int, i64::MAX as int)
    }

    /// The elements of an array.
    pub open spec fn elements(self) -> Option<Seq<JsonView>> {
        match self {
            JsonView::Array(items) => Some(items),
            _ => None,
        }
    }
}

/// The member at `i` is what a lookup of its name finds, when no earlier
/// member has that name.
pub proof fn lemma_lookup_at(members: Seq<(Seq<char>, JsonView)>, key: Seq<char>, i: int)
    requires
        0 <= i <= members.len(),
        forall|k: int| 0 <= k < i ==> (#[trigger] members[k]).0 != key,
    ensures
        i < members.len() && members[i].0 == key ==> lookup(members, key) == Some(members[i].1),
        i == members.len() ==> lookup(members, key) is None,
    decreases members.len(),
{
    if i > 0 {
        assert(members[0].0 != key);
        lemma_lookup_at(members.drop_first(), key, i - 1);
    }
}

/// Setting a member whose first occurrence is at `i` updates that place, and
/// appends when there is none.
proof fn lemma_put_at(members: Seq<(Seq<char>, JsonView)>, key: Seq<char>, value: JsonView, i: int)
    requires
        0 <= i <= members.len(),
        forall|k: int| 0 <= k < i ==> (#[trigger] members[k]).0 != key,
    ensures
        i < members.len() && members[i].0 == key ==> put(members, key, value) == members.update(
            i,
            (key, value),
        ),
        i == members.len() ==> put(members, key, value) == members.push((key, value)),
    decreases members.len(),
{
    if i > 0 {
        assert(members[0].0 != key);
        lemma_put_at(members.drop_first(), key, value, i - 1);
        if i < members.len() && members[i].0 == key {
            assert(put(members, key, value) =~= members.update(i, (key, value)));
        }
        if i == members.len() {
            assert(put(members, key, value) =~= members.push((key, value)));
        }
    } else if members.len() == 0 {
        assert(put(members, key, value) =~= members.push((key, value)));
    } else if members[0].0 == key {
        assert(put(members, key, value) =~= members.update(0, (key, value)));
    }
}

/// A member that was set is found, and every other one is untouched.
pub proof fn put_then_lookup(
    members: Seq<(Seq<char>, JsonView)>,
    key: Seq<char>,
    value: JsonView,
    other: Seq<char>,
)
    ensures
        lookup(put(members, key, value), other) == if other == key {
            Some(value)
        } else {
            lookup(members, other)
        },
    decreases members.len(),
{
    if members.len() > 0 {
        if members[0].0 == key {
            assert((seq![(key, value)] + members.drop_first()).drop_first()
                =~= members.drop_first());
        } else {
            put_then_lookup(members.drop_first(), key, value, other);
            assert((seq![members[0]] + put(members.drop_first(), key, value)).drop_first()
                =~= put(members.drop_first(), key, value));
        }
    } else {
        assert(seq![(key, value)].drop_first() =~= members);
    }
}

impl Json {
    /// A string value.
    pub fn text(s: &str) -> (r: Json)
        ensures
            r@ == JsonView::Str(s@),
    {
        Json::Str(s.to_owned())
    }

    /// An array of the given values.
    pub fn array(items: Vec<Json>) -> (r: Json)
        ensures
            r@ == JsonView::Array(items_view(items@)),
    {
        let r = Json::Array(items);
        assert(r@->Array_0 =~= items_view(items@));
        r
    }

    /// An object of the given members.
    pub fn object(members: Vec<(String, Json)>) -> (r: Json)
        ensures
            r@ == JsonView::Object(members_view(members@)),
    {
        let r = Json::Object(members);
        assert(r@->Object_0 =~= members_view(members@));
        r
    }

    /// An object of one member.
    pub fn object1(k: &str, v: Json) -> (r: Json)
        ensures
            r@ == JsonView::Object(seq![(k@, v@)]),
    {
        let members = vec![(k.to_owned(), v)];
        assert(members_view(members@) =~= seq![(k@, v@)]);
        Json::object(members)
    }

    /// An object of two members.
    pub fn object2(k1: &str, v1: Json, k2: &str, v2: Json) -> (r: Json)
        ensures
            r@ == JsonView::Object(seq![(k1@, v1@), (k2@, v2@)]),
    {
        let members = vec![(k1.to_owned(), v1), (k2.to_owned(), v2)];
        assert(members_view(members@) =~= seq![(k1@, v1@), (k2@, v2@)]);
        Json::object(members)
    }

    /// An object of three members.
    pub fn object3(k1: &str, v1: Json, k2: &str, v2: Json, k3: &str, v3: Json) -> (r: Json)
        ensures
            r@ == JsonView::Object(seq![(k1@, v1@), (k2@, v2@), (k3@, v3@)]),
    {
        let members = vec![(k1.to_owned(), v1), (k2.to_owned(), v2), (k3.to_owned(), v3)];
        assert(members_view(members@) =~= seq![(k1@, v1@), (k2@, v2@), (k3@, v3@)]);
        Json::object(members)
    }

    /// An object of four members.
    pub fn object4(
        k1: &str,
        v1: Json,
        k2: &str,
        v2: Json,
        k3: &str,
        v3: Json,
        k4: &str,
        v4: Json,
    ) -> (r: Json)
        ensures
            r@ == JsonView::Object(seq![(k1@, v1@), (k2@, v2@), (k3@, v3@), (k4@, v4@)]),
    {
        let members = vec![
            (k1.to_owned(), v1),
            (k2.to_owned(), v2),
            (k3.to_owned(), v3),
            (k4.to_owned(), v4),
        ];
        assert(members_view(members@) =~= seq![(k1@, v1@), (k2@, v2@), (k3@, v3@), (k4@, v4@)]);
        Json::object(members)
    }

    /// The member `key` of an object.
    pub fn get(&self, key: &str) -> (r: Option<&Json>)
        ensures
            match r {
                Some(v) => self@.get(key@) == Some(v@),
                None => self@.get(key@) is None,
            },
    {
        match self {
            Json::Object(members) => {
                let ghost model = members_view(members@);
                assert(self@->Object_0 =~= model);
                let mut i: usize = 0;
                while i < members.len()
                    invariant
                        i <= members@.len(),
                        model == members_view(members@),
                        self@ == JsonView::Object(model),
                        forall|k: int| 0 <= k < i ==> (#[trigger] model[k]).0 != key@,
                    decreases members.len() - i,
                {
                    if same(&members[i].0, key) {
                        proof {
                            lemma_lookup_at(model, key@, i as int);
                        }
                        return Some(&members[i].1);
                    }
                    i += 1;
                }
                proof {
                    lemma_lookup_at(model, key@, i as int);
                }
                None
            },
            _ => None,
        }
    }

    /// The text of the member `key`, when it is a string.
    pub fn get_str(&self, key: &str) -> (r: Option<&str>)
        ensures
            match r {
                Some(s) => self@.at(key@).text() == Some(s@),
                None => self@.at(key@).text() is None,
            },
    {
        match self.get(key) {
            Some(v) => v.as_str(),
            None => None,
        }
    }

    /// The text of a string value.
    pub fn as_str(&self) -> (r: Option<&str>)
        ensures
            match r {
                Some(s) => self@.text() == Some(s@),
                None => self@.text() is None,
            },
    {
        match self {
            Json::Str(text) => Some(text.as_str()),
            _ => None,
        }
    }

    /// The value of a boolean.
    pub fn as_bool(&self) -> (r: Option<bool>)
        ensures
            r == self@.boolean(),
    {
        match self {
            Json::Bool(b) => Some(*b),
            _ => None,
        }
    }

    /// The value of an integer that fits `u64`.
    pub fn as_u64(&self) -> (r: Option<u64>)
        ensures
            match r {
                Some(n) => self@.unsigned() == Some(n as int),
                None => self@.unsigned() is None,
            },
    {
        match self {
            Json::Unsigned(n) => Some(*n),
            Json::Signed(n) => if *n >= 0 {
                Some(*n as u64)
            } else {
                None
            },
            _ => None,
        }
    }

    /// The value of an integer that fits `i64`.
    pub fn as_i64(&self) -> (r: Option<i64>)
        ensures
            match r {
                Some(n) => self@.signed() == Some(n as int),
                None => self@.signed() is None,
            },
    {
        match self {
            Json::Signed(n) => Some(*n),
            Json::Unsigned(n) => if *n <= 0x7fff_ffff_ffff_ffff {
                Some(*n as i64)
            } else {
                None
            },
            _ => None,
        }
    }

    /// The elements of an array.
    pub fn as_array(&self) -> (r: Option<&Vec<Json>>)
        ensures
            match r {
                Some(items) => self@.elements() == Some(items_view(items@)),
                None => self@.elements() is None,
            },
    {
        match self {
            Json::Array(items) => {
                assert(self@->Array_0 =~= items_view(items@));
                Some(items)
            },
            _ => None,
        }
    }

    /// Whether the value is an object.
    pub fn is_object(&self) -> (r: bool)
        ensures
            r == (self@ is Object),
    {
        match self {
            Json::Object(_) => true,
            _ => false,
        }
    }
}

/// A string value.
pub open spec fn jstr(text: Seq<char>) -> JsonView {
    JsonView::Str(text)
}

/// A string value, or null for none.
pub open spec fn jopt(text: Option<Seq<char>>) -> JsonView {
    match text {
        Some(text) => JsonView::Str(text),
        None => JsonView::Null,
    }
}

/// An object without members.
pub open spec fn jempty() -> JsonView {
    JsonView::Object(Seq::empty())
}

/// A string value, or null for none.
pub fn opt_json(s: &Option<String>) -> (r: Json)
    ensures
        r@ == jopt(opt_text(*s)),
{
    match s {
        Some(s) => Json::Str(s.clone()),
        None => Json::Null,
    }
}

/// An object without members.
pub fn empty_object() -> (r: Json)
    ensures
        r@ == jempty(),
{
    let members: Vec<(String, Json)> = Vec::new();
    assert(members_view(members@) =~= Seq::empty());
    Json::object(members)
}

/// A copy of a list of values.
pub fn clone_items(items: &Vec<Json>) -> (r: Vec<Json>)
    ensures
        items_view(r@) == items_view(items@),
{
    let mut r: Vec<Json> = Vec::new();
    let mut i: usize = 0;
    while i < items.len()
        invariant
            r@.len() == i <= items@.len(),
            forall|k: int| 0 <= k < i ==> (#[trigger] r@[k])@ == items@[k]@,
        decreases items.len() - i,
    {
        r.push(items[i].clone());
        i += 1;
    }
    assert(items_view(r@) =~= items_view(items@));
    r
}

/// Set the member `key`, replacing the value of one already there.
pub fn put_member(members: &mut Vec<(String, Json)>, key: &str, value: Json)
    ensures
        members_view(final(members)@) == put(members_view(old(members)@), key@, value@),
{
    let ghost model = members_view(members@);
    let mut i: usize = 0;
    while i < members.len()
        invariant
            i <= members@.len(),
            *members == *old(members),
            model == members_view(members@),
            forall|k: int| 0 <= k < i ==> (#[trigger] model[k]).0 != key@,
        decreases members.len() - i,
    {
        if same(&members[i].0, key) {
            proof {
                lemma_put_at(model, key@, value@, i as int);
            }
            members.set(i, (key.to_owned(), value));
            assert(members_view(members@) =~= model.update(i as int, (key@, value@)));
            return;
        }
        i += 1;
    }
    proof {
        lemma_put_at(model, key@, value@, i as int);
    }
    members.push((key.to_owned(), value));
    assert(members_view(members@) =~= model.push((key@, value@)));
}

/// The strings among the values, in order.
pub open spec fn strings_among(items: Seq<JsonView>) -> Seq<Seq<char>>
    decreases items.len(),
{
    if items.len() == 0 {
        Seq::empty()
    } else {
        match items.last() {
            JsonView::Str(text) => strings_among(items.drop_last()).push(text),
            _ => strings_among(items.drop_last()),
        }
    }
}

/// The strings of an array; none for anything else.
pub open spec fn strings_in(v: JsonView) -> Seq<Seq<char>> {
    match v {
        JsonView::Array(items) => strings_among(items),
        _ => Seq::empty(),
    }
}

/// The strings of an array; none for anything else.
pub fn strings_of(v: Option<&Json>) -> (r: Vec<String>)
    ensures
        texts(r@) == (match v {
            Some(v) => strings_in(v@),
            None => Seq::empty(),
        }),
{
    let mut r: Vec<String> = Vec::new();
    let v = match v {
        Some(v) => v,
        None => {
            assert(texts(r@) =~= Seq::<Seq<char>>::empty());
            return r;
        },
    };
    match v.as_array() {
        None => {
            assert(texts(r@) =~= Seq::<Seq<char>>::empty());
            r
        },
        Some(items) => {
            let ghost all = items_view(items@);
            let mut i: usize = 0;
            assert(texts(r@) =~= Seq::<Seq<char>>::empty());
            while i < items.len()
                invariant
                    i <= items@.len(),
                    all == items_view(items@),
                    texts(r@) == strings_among(all.take(i as int)),
                decreases items.len() - i,
            {
                assert(all.take(i as int + 1).drop_last() =~= all.take(i as int));
                let ghost before = texts(r@);
                if let Some(s) = items[i].as_str() {
                    r.push(s.to_owned());
                    assert(texts(r@) =~= before.push(s@));
                }
                i += 1;
            }
            assert(all.take(i as int) =~= all);
            r
        },
    }
}

/// The value tree of `serde_json`, opaque here.
#[verifier::external_type_specification]
#[verifier::external_body]
pub struct ExJsonValue(serde_json::Value);

/// What `serde_json::from_str` reads from a text: the value it holds, or the
/// message of the error.
pub uninterp spec fn json_parse(text: Seq<char>) -> Result<JsonView, Seq<char>>;

/// The compact text that `serde_json::Value` prints for a value.
pub uninterp spec fn json_print(value: JsonView) -> Seq<char>;

/// Moves the fields of a `serde_json::Value` into a [`Json`], variant by
/// variant. Nothing is claimed of it by itself; [`parse_json`] speaks of its
/// result.
#[verifier::external_body]
fn from_value(value: serde_json::Value) -> (r: Json) {
    match value {
        serde_json::Value::Null => Json::Null,
        serde_json::Value::Bool(b) => Json::Bool(b),
        serde_json::Value::Number(n) => match (n.as_u64(), n.as_i64()) {
            (Some(u), _) => Json::Unsigned(u),
            (None, Some(i)) => Json::Signed(i),
            (None, None) => Json::Float(n.to_string()),
        },
        serde_json::Value::String(s) => Json::Str(s),
        serde_json::Value::Array(a) => Json::Array(a.into_iter().map(from_value).collect()),
        serde_json::Value::Object(m) => {
            Json::Object(m.into_iter().map(|(k, v)| (k, from_value(v))).collect())
        },
    }
}

/// Moves the fields of a [`Json`] into a `serde_json::Value`, variant by
/// variant. Nothing is claimed of it by itself; [`print_json`] speaks of its
/// result.
#[verifier::external_body]
fn to_value(value: &Json) -> (r: serde_json::Value) {
    match value {
        Json::Null => serde_json::Value::Null,
        Json::Bool(b) => serde_json::Value::Bool(*b),
        Json::Unsigned(n) => serde_json::Value::from(*n),
        Json::Signed(n) => serde_json::Value::from(*n),
        Json::Float(t) => serde_json::from_str(t).unwrap_or(serde_json::Value::Null),
        Json::Str(s) => serde_json::Value::String(s.clone()),
        Json::Array(a) => serde_json::Value::Array(a.iter().map(to_value).collect()),
        Json::Object(m) => {
            serde_json::Value::Object(m.iter().map(|(k, v)| (k.clone(), to_value(v))).collect())
        },
    }
}

/// Reads a JSON text with `serde_json::from_str`, into its `Value`: the result
/// depends on the text alone.
#[verifier::external_body]
pub(crate) fn parse_json(text: &str) -> (r: Result<Json, String>)
    ensures
        match r {
            Ok(value) => json_parse(text@) == Ok::<JsonView, Seq<char>>(value@),
            Err(message) => json_parse(text@) == Err::<JsonView, Seq<char>>(message@),
        },
{
    serde_json::from_str(text).map(from_value).map_err(|e: serde_json::Error| e.to_string())
}

/// Prints a value as compact JSON, as `serde_json::Value` displays itself: the
/// result depends on the value alone.
#[verifier::external_body]
pub(crate) fn print_json(value: &Json) -> (r: String)
    ensures
        r@ == json_print(value@),
{
    to_value(value).to_string()
}

} // verus!
