//! JSON values: a tree of the library's own, its mathematical model, and its text.
use vstd::prelude::*;
use vstd::string::*;
use crate::text;

verus! {

/// A JSON value. A number is held as `serde_json` holds it; an object is a list of entries, of
/// which the first with a given key counts.
#[derive(Debug)]
pub enum Json {
    Null,
    Bool(bool),
    Number(serde_json::Number),
    Str(String),
    Array(Vec<Json>),
    Object(Vec<(String, Json)>),
}

/// The mathematical model of a JSON value.
#[verifier::ext_equal]
pub enum JVal {
    Null,
    Bool(bool),
    /// A whole number that fits `u64`.
    Uint(u64),
    /// Any other number, as it came.
    Other(serde_json::Number),
    Str(Seq<char>),
    Array(Seq<JVal>),
    Object(Map<Seq<char>, JVal>),
}

/// The outside number type; its content is opaque here.
#[verifier::external_type_specification]
#[verifier::external_body]
pub struct ExNumber(serde_json::Number);

/// The outside value type; its content is opaque here.
#[verifier::external_type_specification]
#[verifier::external_body]
pub struct ExValue(serde_json::Value);

/// What `serde_json::Number::as_u64` returns for `n`.
pub uninterp spec fn number_u64(n: serde_json::Number) -> Option<u64>;

/// The tree that a `serde_json::Value` holds.
pub uninterp spec fn tree_of(v: serde_json::Value) -> JVal;

/// The compact JSON text that `serde_json` writes for a tree.
pub uninterp spec fn json_text(v: JVal) -> Seq<char>;

/// The tree that `serde_json::from_str` reads from a text, `None` where it reports an error.
pub uninterp spec fn json_parse(s: Seq<char>) -> Option<JVal>;

/// The model of a number.
pub open spec fn number_value(n: serde_json::Number) -> JVal {
    match number_u64(n) {
        Some(u) => JVal::Uint(u),
        None => JVal::Other(n),
    }
}

/// The object that a list of entries stands for: the first entry with a key counts.
pub open spec fn members(s: Seq<(Seq<char>, JVal)>) -> Map<Seq<char>, JVal>
    decreases s.len(),
{
    if s.len() == 0 {
        Map::empty()
    } else {
        members(s.drop_first()).insert(s[0].0, s[0].1)
    }
}

/// Whether no key occurs twice.
pub open spec fn distinct_keys(s: Seq<(Seq<char>, JVal)>) -> bool {
    forall|i: int, j: int| 0 <= i < j < s.len() ==> (#[trigger] s[i]).0 != (#[trigger] s[j]).0
}

/// Whether no more than `limit` arrays and objects stand one inside the other in `v`.
pub open spec fn fits_depth(v: JVal, limit: nat) -> bool
    decreases v,
{
    match v {
        JVal::Array(items) => limit > 0 && forall|i: int|
            0 <= i < items.len() ==> fits_depth(#[trigger] items[i], (limit - 1) as nat),
        JVal::Object(m) => limit > 0 && forall|k: Seq<char>|
            m.contains_key(k) && m.dom().finite() ==> fits_depth(
                #[trigger] m[k],
                (limit - 1) as nat,
            ),
        _ => true,
    }
}

/// Whether a number is a whole one: its text has neither a fraction nor an exponent.
pub open spec fn is_whole(n: serde_json::Number) -> bool {
    let t = json_text(JVal::Other(n));
    !t.contains('.') && !t.contains('e')
}

/// Whether every number in `v` is a whole number.
pub open spec fn whole_numbers(v: JVal) -> bool
    decreases v,
{
    match v {
        JVal::Other(n) => is_whole(n),
        JVal::Array(items) => forall|i: int|
            0 <= i < items.len() ==> whole_numbers(#[trigger] items[i]),
        JVal::Object(m) => forall|k: Seq<char>|
            m.contains_key(k) && m.dom().finite() ==> whole_numbers(#[trigger] m[k]),
        _ => true,
    }
}

/// The key that `serde_json` reserves for text that it has not read yet.
pub open spec fn reserved_key() -> Seq<char> {
    "$serde_json::private::RawValue"@
}

/// Whether no object in `v` has a member under the reserved key.
pub open spec fn plain_keys(v: JVal) -> bool
    decreases v,
{
    match v {
        JVal::Array(items) => forall|i: int|
            0 <= i < items.len() ==> plain_keys(#[trigger] items[i]),
        JVal::Object(m) => !m.contains_key(reserved_key()) && forall|k: Seq<char>|
            m.contains_key(k) && m.dom().finite() ==> plain_keys(#[trigger] m[k]),
        _ => true,
    }
}

/// Whether `v` is a tree that its text reads back as: its numbers are whole, it is no deeper than
/// the parser allows, and it makes no use of the reserved key.
pub open spec fn is_exact(v: JVal) -> bool {
    whole_numbers(v) && fits_depth(v, 127) && plain_keys(v)
}

impl JVal {
    /// The member of an object under `key`.
    pub open spec fn get(self, key: Seq<char>) -> Option<JVal> {
        match self {
            JVal::Object(m) => if m.contains_key(key) {
                Some(m[key])
            } else {
                None
            },
            _ => None,
        }
    }

    /// The member of an object under `key`, null where there is none.
    pub open spec fn at(self, key: Seq<char>) -> JVal {
        match self.get(key) {
            Some(v) => v,
            None => JVal::Null,
        }
    }

    /// An item of an array, null where there is none.
    pub open spec fn item(self, i: int) -> JVal {
        match self {
            JVal::Array(items) => if 0 <= i < items.len() {
                items[i]
            } else {
                JVal::Null
            },
            _ => JVal::Null,
        }
    }

    /// What a path that continues with `0` leads to: the first item of an array, or the member
    /// of that name of an object; null where there is none.
    pub open spec fn first(self) -> JVal {
        match self {
            JVal::Array(items) => self.item(0),
            _ => self.at("0"@),
        }
    }

    pub open spec fn text(self) -> Option<Seq<char>> {
        match self {
            JVal::Str(s) => Some(s),
            _ => None,
        }
    }

    pub open spec fn uint(self) -> Option<u64> {
        match self {
            JVal::Uint(u) => Some(u),
            _ => None,
        }
    }

    pub open spec fn truth(self) -> Option<bool> {
        match self {
            JVal::Bool(b) => Some(b),
            _ => None,
        }
    }

    pub open spec fn items(self) -> Option<Seq<JVal>> {
        match self {
            JVal::Array(items) => Some(items),
            _ => None,
        }
    }

    /// The text under `key`.
    pub open spec fn text_at(self, key: Seq<char>) -> Option<Seq<char>> {
        match self.get(key) {
            Some(v) => v.text(),
            None => None,
        }
    }

    /// The text under `key`, or `default` where there is none.
    pub open spec fn text_or(self, key: Seq<char>, default: Seq<char>) -> Seq<char> {
        match self.text_at(key) {
            Some(s) => s,
            None => default,
        }
    }

    /// The whole number under `key`.
    pub open spec fn uint_at(self, key: Seq<char>) -> Option<u64> {
        match self.get(key) {
            Some(v) => v.uint(),
            None => None,
        }
    }

    /// The items of the array under `key`; none where there is no array.
    pub open spec fn items_at(self, key: Seq<char>) -> Seq<JVal> {
        match self.get(key) {
            Some(v) => match v.items() {
                Some(items) => items,
                None => Seq::empty(),
            },
            None => Seq::empty(),
        }
    }

    /// An object with one more member, which takes the place of one with the same key. Any
    /// other value stays as it is.
    pub open spec fn with(self, key: Seq<char>, value: JVal) -> JVal {
        match self {
            JVal::Object(m) => JVal::Object(m.insert(key, value)),
            _ => self,
        }
    }

    /// An object without the member under `key`. Any other value stays as it is.
    pub open spec fn without(self, key: Seq<char>) -> JVal {
        match self {
            JVal::Object(m) => JVal::Object(m.remove(key)),
            _ => self,
        }
    }

    /// The object without members.
    pub open spec fn empty_object() -> JVal {
        JVal::Object(Map::empty())
    }
}

/// The models of a list of entries.
pub open spec fn entry_values(v: Seq<(String, Json)>) -> Seq<(Seq<char>, JVal)> {
    Seq::new(v.len(), |i: int| (v[i].0@, v[i].1@))
}

/// The models of a list of values.
pub open spec fn item_values(v: Seq<Json>) -> Seq<JVal> {
    Seq::new(v.len(), |i: int| v[i]@)
}

impl Json {
    /// The mathematical model of this value.
    pub open spec fn value(self) -> JVal
        decreases self,
    {
        match self {
            Json::Null => JVal::Null,
            Json::Bool(b) => JVal::Bool(b),
            Json::Number(n) => number_value(n),
            Json::Str(s) => JVal::Str(s@),
            Json::Array(v) => JVal::Array(
                Seq::new(
                    v@.len(),
                    |i: int|
                        if 0 <= i < v@.len() {
                            v@[i].value()
                        } else {
                            JVal::Null
                        },
                ),
            ),
            Json::Object(v) => JVal::Object(members(Json::entries(v@))),
        }
    }

    /// The keys of an object's entries, each with the model of its value.
    pub open spec fn entries(v: Seq<(String, Json)>) -> Seq<(Seq<char>, JVal)>
        decreases v,
    {
        Seq::new(
            v.len(),
            |i: int|
                if 0 <= i < v.len() {
                    (v[i].0@, v[i].1.value())
                } else {
                    (Seq::empty(), JVal::Null)
                },
        )
    }
}

impl View for Json {
    type V = JVal;

    open spec fn view(&self) -> JVal {
        self.value()
    }
}

/// An array's model holds the models of its items.
pub broadcast proof fn lemma_array_view(v: Vec<Json>)
    ensures
        #[trigger] Json::Array(v)@ == JVal::Array(item_values(v@)),
{
    assert(Json::Array(v)@->Array_0 =~= item_values(v@));
}

/// An object's model holds the models of its entries.
pub broadcast proof fn lemma_object_view(v: Vec<(String, Json)>)
    ensures
        #[trigger] Json::Object(v)@ == JVal::Object(members(entry_values(v@))),
{
    assert(Json::entries(v@) =~= entry_values(v@));
}

/// A list of entries gives an object with finitely many members, each of them an entry.
pub proof fn lemma_members_entries(s: Seq<(Seq<char>, JVal)>)
    ensures
        members(s).dom().finite(),
        forall|k: Seq<char>|
            members(s).contains_key(k) <==> exists|i: int| 0 <= i < s.len() && (#[trigger] s[i]).0
                == k,
    decreases s.len(),
{
    if s.len() > 0 {
        let rest = s.drop_first();
        lemma_members_entries(rest);
        assert forall|k: Seq<char>|
            members(s).contains_key(k) <==> exists|i: int| 0 <= i < s.len() && (#[trigger] s[i]).0
                == k by {
            if members(s).contains_key(k) {
                if k == s[0].0 {
                } else {
                    let j = choose|j: int| 0 <= j < rest.len() && (#[trigger] rest[j]).0 == k;
                    assert(s[j + 1].0 == k);
                }
            }
            if exists|i: int| 0 <= i < s.len() && (#[trigger] s[i]).0 == k {
                let i = choose|i: int| 0 <= i < s.len() && (#[trigger] s[i]).0 == k;
                if i > 0 {
                    assert(rest[i - 1].0 == k);
                }
            }
        }
    }
}

/// The first entry with a key gives the member's value.
pub proof fn lemma_members_first(s: Seq<(Seq<char>, JVal)>, i: int)
    requires
        0 <= i < s.len(),
        forall|j: int| 0 <= j < i ==> (#[trigger] s[j]).0 != s[i].0,
    ensures
        members(s).contains_key(s[i].0),
        members(s)[s[i].0] == s[i].1,
    decreases s.len(),
{
    if i > 0 {
        let rest = s.drop_first();
        assert(s[0].0 != s[i].0);
        assert forall|j: int| 0 <= j < i - 1 implies (#[trigger] rest[j]).0 != rest[i - 1].0 by {
            assert(s[j + 1].0 != s[i].0);
        }
        lemma_members_first(rest, i - 1);
    }
}

/// An entry behind the others counts only where its key is new.
pub proof fn lemma_members_push(s: Seq<(Seq<char>, JVal)>, k: Seq<char>, v: JVal)
    ensures
        members(s.push((k, v))) == if members(s).contains_key(k) {
            members(s)
        } else {
            members(s).insert(k, v)
        },
    decreases s.len(),
{
    let t = s.push((k, v));
    if s.len() == 0 {
        assert(t.drop_first() =~= Seq::empty());
        assert(members(t.drop_first()) =~= Map::empty());
        assert(members(t) =~= Map::empty().insert(k, v));
    } else {
        assert(t.drop_first() =~= s.drop_first().push((k, v)));
        lemma_members_push(s.drop_first(), k, v);
        assert(members(t) =~= if members(s).contains_key(k) {
            members(s)
        } else {
            members(s).insert(k, v)
        });
    }
}

/// Giving the first entry with a key another value gives the member that value.
pub proof fn lemma_members_update(s: Seq<(Seq<char>, JVal)>, i: int, v: JVal)
    requires
        0 <= i < s.len(),
        forall|j: int| 0 <= j < i ==> (#[trigger] s[j]).0 != s[i].0,
    ensures
        members(s.update(i, (s[i].0, v))) == members(s).insert(s[i].0, v),
    decreases s.len(),
{
    let t = s.update(i, (s[i].0, v));
    if i == 0 {
        assert(t.drop_first() =~= s.drop_first());
        assert(members(t) =~= members(s).insert(s[i].0, v));
    } else {
        let rest = s.drop_first();
        assert(s[0].0 != s[i].0);
        assert forall|j: int| 0 <= j < i - 1 implies (#[trigger] rest[j]).0 != rest[i - 1].0 by {
            assert(s[j + 1].0 != s[i].0);
        }
        lemma_members_update(rest, i - 1, v);
        assert(t.drop_first() =~= rest.update(i - 1, (rest[i - 1].0, v)));
        assert(members(t) =~= members(s).insert(s[i].0, v));
    }
}

/// One level of a `serde_json::Value`, taken apart.
enum Node {
    Null,
    Bool(bool),
    Number(serde_json::Number),
    Str(String),
    Array(Vec<serde_json::Value>),
    Object(Vec<(String, serde_json::Value)>),
}

spec fn node_entries(v: Seq<(String, serde_json::Value)>) -> Seq<(Seq<char>, JVal)> {
    Seq::new(v.len(), |i: int| (v[i].0@, tree_of(v[i].1)))
}

spec fn node_items(v: Seq<serde_json::Value>) -> Seq<JVal> {
    Seq::new(v.len(), |i: int| tree_of(v[i]))
}

spec fn node_tree(n: Node) -> JVal {
    match n {
        Node::Null => JVal::Null,
        Node::Bool(b) => JVal::Bool(b),
        Node::Number(x) => number_value(x),
        Node::Str(s) => JVal::Str(s@),
        Node::Array(v) => JVal::Array(node_items(v@)),
        Node::Object(v) => JVal::Object(members(node_entries(v@))),
    }
}

/// Takes a `serde_json::Value` apart, variant by variant. The keys of a `serde_json::Map` are
/// distinct.
#[verifier::external_body]
fn open_value(v: serde_json::Value) -> (n: Node)
    ensures
        node_tree(n) == tree_of(v),
        n matches Node::Object(e) ==> distinct_keys(node_entries(e@)),
{
    match v {
        serde_json::Value::Null => Node::Null,
        serde_json::Value::Bool(b) => Node::Bool(b),
        serde_json::Value::Number(x) => Node::Number(x),
        serde_json::Value::String(s) => Node::Str(s),
        serde_json::Value::Array(items) => Node::Array(items),
        serde_json::Value::Object(m) => Node::Object(m.into_iter().collect()),
    }
}

/// Puts a `serde_json::Value` together, variant by variant.
#[verifier::external_body]
fn close_value(n: Node) -> (v: serde_json::Value)
    requires
        n matches Node::Object(e) ==> distinct_keys(node_entries(e@)),
    ensures
        tree_of(v) == node_tree(n),
{
    match n {
        Node::Null => serde_json::Value::Null,
        Node::Bool(b) => serde_json::Value::Bool(b),
        Node::Number(x) => serde_json::Value::Number(x),
        Node::Str(s) => serde_json::Value::String(s),
        Node::Array(items) => serde_json::Value::Array(items),
        Node::Object(e) => serde_json::Value::Object(e.into_iter().collect()),
    }
}

/// `serde_json::Value::to_string`: compact text, a function of the tree alone. Where all numbers
/// are whole, the tree is no deeper than the parser allows and no object has the key that the
/// parser reserves for raw text, reading the text gives the tree. Nothing is said of numbers with
/// a fraction or an exponent: the parser may miss them by a last place.
#[verifier::external_body]
fn value_text(v: &serde_json::Value) -> (s: String)
    ensures
        s@ == json_text(tree_of(*v)),
        is_exact(tree_of(*v)) ==> json_parse(s@) == Some(tree_of(*v)),
{
    v.to_string()
}

/// `serde_json::from_str`: the result depends on the text alone.
#[verifier::external_body]
fn parse_value(s: &str) -> (v: Option<serde_json::Value>)
    ensures
        match v {
            Some(x) => json_parse(s@) == Some(tree_of(x)),
            None => json_parse(s@) is None,
        },
{
    serde_json::from_str(s).ok()
}

/// `serde_json::Number::from`: the number that `as_u64` gives back.
#[verifier::external_body]
fn number_from(u: u64) -> (n: serde_json::Number)
    ensures
        number_u64(n) == Some(u),
{
    serde_json::Number::from(u)
}

/// `serde_json::Number::as_u64`: the value of a non-negative integer, `None` for any other number.
#[verifier::external_body]
fn number_as_u64(n: &serde_json::Number) -> (r: Option<u64>)
    ensures
        r == number_u64(*n),
{
    n.as_u64()
}

/// `serde_json::Number::clone`: an equal number.
#[verifier::external_body]
fn number_clone(n: &serde_json::Number) -> (r: serde_json::Number)
    ensures
        r == *n,
{
    n.clone()
}

/// The position of the first entry with `key`.
fn find(entries: &Vec<(String, Json)>, key: &str) -> (r: Option<usize>)
    ensures
        match r {
            Some(i) => {
                &&& i < entries@.len()
                &&& entries@[i as int].0@ == key@
                &&& forall|j: int| 0 <= j < i ==> (#[trigger] entries@[j]).0@ != key@
            },
            None => forall|j: int|
                0 <= j < entries@.len() ==> (#[trigger] entries@[j]).0@ != key@,
        },
{
    let mut i: usize = 0;
    while i < entries.len()
        invariant
            i <= entries@.len(),
            forall|j: int| 0 <= j < i ==> (#[trigger] entries@[j]).0@ != key@,
        decreases entries.len() - i,
    {
        if text::same(entries[i].0.as_str(), key) {
            return Some(i);
        }
        i += 1;
    }
    None
}

impl Json {
    /// An object without members.
    pub fn object() -> (r: Json)
        ensures
            r@ == JVal::empty_object(),
    {
        broadcast use lemma_object_view;
        let entries: Vec<(String, Json)> = Vec::new();
        assert(entry_values(entries@) =~= Seq::empty());
        Json::Object(entries)
    }

    /// A text.
    pub fn string(s: &str) -> (r: Json)
        ensures
            r@ == JVal::Str(s@),
    {
        Json::Str(s.to_owned())
    }

    /// A whole number.
    pub fn uint(u: u64) -> (r: Json)
        ensures
            r@ == JVal::Uint(u),
    {
        Json::Number(number_from(u))
    }

    /// An array of the given items.
    pub fn array(items: Vec<Json>) -> (r: Json)
        ensures
            r@ == JVal::Array(item_values(items@)),
    {
        broadcast use lemma_array_view;
        Json::Array(items)
    }

    /// The member under `key` of an object.
    pub fn get(&self, key: &str) -> (r: Option<&Json>)
        ensures
            match r {
                Some(v) => self@.get(key@) == Some(v@),
                None => self@.get(key@) is None,
            },
    {
        broadcast use lemma_object_view;
        match self {
            Json::Object(entries) => {
                let ghost s = entry_values(entries@);
                match find(entries, key) {
                    Some(i) => {
                        proof {
                            assert(s[i as int].0 == key@);
                            assert forall|j: int| 0 <= j < i implies (#[trigger] s[j]).0
                                != s[i as int].0 by {
                                assert(entries@[j].0@ != key@);
                            }
                            lemma_members_first(s, i as int);
                        }
                        Some(&entries[i].1)
                    },
                    None => {
                        proof {
                            lemma_members_entries(s);
                            assert forall|j: int| 0 <= j < s.len() implies (#[trigger] s[j]).0
                                != key@ by {
                                assert(entries@[j].0@ != key@);
                            }
                        }
                        None
                    },
                }
            },
            _ => None,
        }
    }

    pub fn as_str(&self) -> (r: Option<&str>)
        ensures
            match r {
                Some(s) => self@.text() == Some(s@),
                None => self@.text() is None,
            },
    {
        match self {
            Json::Str(s) => Some(s.as_str()),
            _ => None,
        }
    }

    pub fn as_u64(&self) -> (r: Option<u64>)
        ensures
            r == self@.uint(),
    {
        match self {
            Json::Number(n) => number_as_u64(n),
            _ => None,
        }
    }

    pub fn as_bool(&self) -> (r: Option<bool>)
        ensures
            r == self@.truth(),
    {
        match self {
            Json::Bool(b) => Some(*b),
            _ => None,
        }
    }

    pub fn as_array(&self) -> (r: Option<&Vec<Json>>)
        ensures
            match r {
                Some(v) => self@.items() == Some(item_values(v@)),
                None => self@.items() is None,
            },
    {
        broadcast use lemma_array_view;
        match self {
            Json::Array(v) => Some(v),
            _ => None,
        }
    }

    /// What a path that continues with `0` leads to.
    pub fn first(&self) -> (r: Option<&Json>)
        ensures
            match r {
                Some(v) => self@.first() == v@,
                None => self@.first() is Null,
            },
    {
        broadcast use {lemma_array_view, lemma_object_view};
        match self {
            Json::Array(items) => {
                assert(item_values(items@).len() == items@.len());
                if items.len() > 0 {
                    assert(item_values(items@)[0] == items@[0]@);
                    Some(&items[0])
                } else {
                    None
                }
            },
            _ => self.get("0"),
        }
    }

    /// The text under `key`.
    pub fn text_at(&self, key: &str) -> (r: Option<&str>)
        ensures
            match r {
                Some(s) => self@.text_at(key@) == Some(s@),
                None => self@.text_at(key@) is None,
            },
    {
        match self.get(key) {
            Some(v) => v.as_str(),
            None => None,
        }
    }

    /// The text under `key`, or `default` where there is none.
    pub fn text_or<'a>(&'a self, key: &str, default: &'a str) -> (r: &'a str)
        ensures
            r@ == self@.text_or(key@, default@),
    {
        match self.text_at(key) {
            Some(s) => s,
            None => default,
        }
    }

    /// The whole number under `key`.
    pub fn uint_at(&self, key: &str) -> (r: Option<u64>)
        ensures
            r == self@.uint_at(key@),
    {
        match self.get(key) {
            Some(v) => v.as_u64(),
            None => None,
        }
    }

    /// The array under `key`.
    pub fn array_at(&self, key: &str) -> (r: Option<&Vec<Json>>)
        ensures
            match r {
                Some(v) => self@.items_at(key@) == item_values(v@) && (self@.get(key@) matches Some(
                    x,
                ) && x.items() is Some),
                None => self@.items_at(key@) == Seq::<JVal>::empty() && (self@.get(
                    key@,
                ) matches Some(x) ==> x.items() is None),
            },
    {
        match self.get(key) {
            Some(v) => v.as_array(),
            None => None,
        }
    }

    /// Gives an object the member `key`; any other value stays as it is.
    pub fn set(&mut self, key: &str, value: Json)
        ensures
            final(self)@ == old(self)@.with(key@, value@),
    {
        broadcast use lemma_object_view;
        match self {
            Json::Object(entries) => {
                let ghost before = entry_values(entries@);
                match find(entries, key) {
                    Some(i) => {
                        let k = entries[i].0.clone();
                        proof {
                            assert(before[i as int].0 == key@);
                            assert forall|j: int| 0 <= j < i implies (#[trigger] before[j]).0
                                != before[i as int].0 by {
                                assert(entries@[j].0@ != key@);
                            }
                            lemma_members_update(before, i as int, value@);
                        }
                        let ghost v = value@;
                        entries.set(i, (k, value));
                        assert(entry_values(entries@) =~= before.update(
                            i as int,
                            (before[i as int].0, v),
                        ));
                    },
                    None => {
                        proof {
                            lemma_members_entries(before);
                            assert forall|j: int| 0 <= j < before.len() implies (
                            #[trigger] before[j]).0 != key@ by {
                                assert(entries@[j].0@ != key@);
                            }
                            lemma_members_push(before, key@, value@);
                        }
                        let ghost v = value@;
                        entries.push((key.to_owned(), value));
                        assert(entry_values(entries@) =~= before.push((key@, v)));
                    },
                }
            },
            _ => {},
        }
    }

    /// An equal value.
    pub fn copy(&self) -> (r: Json)
        ensures
            r@ == self@,
        decreases self,
    {
        broadcast use {lemma_array_view, lemma_object_view};
        match self {
            Json::Null => Json::Null,
            Json::Bool(b) => Json::Bool(*b),
            Json::Number(n) => Json::Number(number_clone(n)),
            Json::Str(s) => Json::Str(s.clone()),
            Json::Array(items) => {
                let mut out: Vec<Json> = Vec::new();
                let mut i: usize = 0;
                while i < items.len()
                    invariant
                        i <= items@.len(),
                        out@.len() == i,
                        *self == Json::Array(*items),
                        forall|k: int| 0 <= k < i ==> (#[trigger] out@[k])@ == items@[k]@,
                    decreases items.len() - i,
                {
                    assert(decreases_to!(self => self->Array_0));
                    assert(decreases_to!(self->Array_0 => self->Array_0[i as int]));
                    out.push(items[i].copy());
                    i += 1;
                }
                assert(item_values(out@) =~= item_values(items@));
                Json::Array(out)
            },
            Json::Object(entries) => {
                let mut out: Vec<(String, Json)> = Vec::new();
                let mut i: usize = 0;
                while i < entries.len()
                    invariant
                        i <= entries@.len(),
                        out@.len() == i,
                        *self == Json::Object(*entries),
                        forall|k: int|
                            0 <= k < i ==> (#[trigger] out@[k]).0@ == entries@[k].0@ && out@[k].1@
                                == entries@[k].1@,
                    decreases entries.len() - i,
                {
                    assert(decreases_to!(self => self->Object_0));
                    assert(decreases_to!(self->Object_0 => self->Object_0[i as int]));
                    assert(decreases_to!(self->Object_0[i as int] => self->Object_0[i as int].1));
                    out.push((entries[i].0.clone(), entries[i].1.copy()));
                    i += 1;
                }
                assert(entry_values(out@) =~= entry_values(entries@));
                Json::Object(out)
            },
        }
    }

    /// A copy without the member `key`.
    pub fn copy_without(&self, key: &str) -> (r: Json)
        ensures
            r@ == self@.without(key@),
    {
        broadcast use lemma_object_view;
        match self {
            Json::Object(entries) => {
                let ghost all = entry_values(entries@);
                let mut out: Vec<(String, Json)> = Vec::new();
                let mut i: usize = 0;
                proof {
                    assert(entry_values(out@) =~= Seq::empty());
                    assert(all.subrange(0, 0) =~= Seq::empty());
                    assert(members(all.subrange(0, 0)).remove(key@) =~= members(
                        entry_values(out@),
                    ));
                }
                while i < entries.len()
                    invariant
                        i <= entries@.len(),
                        all == entry_values(entries@),
                        members(entry_values(out@)) == members(all.subrange(0, i as int)).remove(
                            key@,
                        ),
                    decreases entries.len() - i,
                {
                    let ghost done = all.subrange(0, i as int);
                    let ghost kept = entry_values(out@);
                    proof {
                        assert(all.subrange(0, i + 1) =~= done.push(all[i as int]));
                        lemma_members_push(done, all[i as int].0, all[i as int].1);
                    }
                    if !text::same(entries[i].0.as_str(), key) {
                        proof {
                            lemma_members_push(kept, all[i as int].0, all[i as int].1);
                        }
                        out.push((entries[i].0.clone(), entries[i].1.copy()));
                        assert(entry_values(out@) =~= kept.push(all[i as int]));
                    }
                    assert(members(entry_values(out@)) =~= members(
                        all.subrange(0, i + 1),
                    ).remove(key@));
                    i += 1;
                }
                assert(all.subrange(0, i as int) =~= all);
                Json::Object(out)
            },
            _ => self.copy(),
        }
    }

    /// The value as `serde_json` holds it.
    pub fn to_value(&self) -> (v: serde_json::Value)
        ensures
            tree_of(v) == self@,
        decreases self,
    {
        broadcast use {lemma_array_view, lemma_object_view};
        match self {
            Json::Null => close_value(Node::Null),
            Json::Bool(b) => close_value(Node::Bool(*b)),
            Json::Number(n) => close_value(Node::Number(number_clone(n))),
            Json::Str(s) => close_value(Node::Str(s.clone())),
            Json::Array(items) => {
                let mut out: Vec<serde_json::Value> = Vec::new();
                let mut i: usize = 0;
                while i < items.len()
                    invariant
                        i <= items@.len(),
                        out@.len() == i,
                        *self == Json::Array(*items),
                        forall|k: int| 0 <= k < i ==> tree_of(#[trigger] out@[k]) == items@[k]@,
                    decreases items.len() - i,
                {
                    assert(decreases_to!(self => self->Array_0));
                    assert(decreases_to!(self->Array_0 => self->Array_0[i as int]));
                    out.push(items[i].to_value());
                    i += 1;
                }
                assert(node_items(out@) =~= item_values(items@));
                close_value(Node::Array(out))
            },
            Json::Object(entries) => {
                let ghost all = entry_values(entries@);
                let mut out: Vec<(String, serde_json::Value)> = Vec::new();
                let mut i: usize = 0;
                assert(node_entries(out@) =~= all.subrange(0, 0));
                while i < entries.len()
                    invariant
                        i <= entries@.len(),
                        all == entry_values(entries@),
                        *self == Json::Object(*entries),
                        members(node_entries(out@)) == members(all.subrange(0, i as int)),
                        distinct_keys(node_entries(out@)),
                    decreases entries.len() - i,
                {
                    assert(decreases_to!(self => self->Object_0));
                    assert(decreases_to!(self->Object_0 => self->Object_0[i as int]));
                    assert(decreases_to!(self->Object_0[i as int] => self->Object_0[i as int].1));
                    let ghost done = all.subrange(0, i as int);
                    let ghost kept = node_entries(out@);
                    proof {
                        assert(all.subrange(0, i + 1) =~= done.push(all[i as int]));
                        lemma_members_push(done, all[i as int].0, all[i as int].1);
                        lemma_members_push(kept, all[i as int].0, all[i as int].1);
                        lemma_members_entries(kept);
                    }
                    if !key_taken(&out, entries[i].0.as_str()) {
                        let v = entries[i].1.to_value();
                        out.push((entries[i].0.clone(), v));
                        assert(node_entries(out@) =~= kept.push(all[i as int]));
                        assert(forall|j: int| 0 <= j < kept.len() ==> (#[trigger] kept[j]).0
                            != all[i as int].0);
                    }
                    i += 1;
                }
                assert(all.subrange(0, i as int) =~= all);
                close_value(Node::Object(out))
            },
        }
    }

    /// The value that `serde_json` holds.
    pub fn from_value(v: serde_json::Value) -> (r: Json)
        ensures
            r@ == tree_of(v),
        decreases tree_of(v),
    {
        broadcast use {lemma_array_view, lemma_object_view};
        let ghost whole = tree_of(v);
        match open_value(v) {
            Node::Null => Json::Null,
            Node::Bool(b) => Json::Bool(b),
            Node::Number(n) => Json::Number(n),
            Node::Str(s) => Json::Str(s),
            Node::Array(mut items) => {
                let ghost all = items@;
                let mut out: Vec<Json> = Vec::new();
                while items.len() > 0
                    invariant
                        items@.len() + out@.len() == all.len(),
                        items@ == all.subrange(out@.len() as int, all.len() as int),
                        whole == JVal::Array(node_items(all)),
                        whole == tree_of(v),
                        forall|k: int|
                            0 <= k < out@.len() ==> (#[trigger] out@[k])@ == tree_of(all[k]),
                    decreases items.len(),
                {
                    let ghost k = out@.len() as int;
                    let item = items.remove(0);
                    proof {
                        assert(item == all[k]);
                        assert(node_items(all)[k] == tree_of(item));
                        assert(decreases_to!(whole->Array_0 => whole->Array_0[k]));
                    }
                    out.push(Json::from_value(item));
                    assert(items@ =~= all.subrange(out@.len() as int, all.len() as int));
                }
                assert(item_values(out@) =~= node_items(all));
                Json::Array(out)
            },
            Node::Object(mut entries) => {
                let ghost all = entries@;
                let ghost tree = node_entries(all);
                let mut out: Vec<(String, Json)> = Vec::new();
                while entries.len() > 0
                    invariant
                        entries@.len() + out@.len() == all.len(),
                        entries@ == all.subrange(out@.len() as int, all.len() as int),
                        tree == node_entries(all),
                        distinct_keys(tree),
                        whole == JVal::Object(members(tree)),
                        whole == tree_of(v),
                        forall|k: int|
                            0 <= k < out@.len() ==> (#[trigger] out@[k]).0@ == all[k].0@
                                && out@[k].1@ == tree_of(all[k].1),
                    decreases entries.len(),
                {
                    let ghost k = out@.len() as int;
                    let (key, item) = entries.remove(0);
                    proof {
                        assert((key, item) == all[k]);
                        assert(tree[k].0 == key@);
                        lemma_members_entries(tree);
                        lemma_members_first(tree, k);
                        assert(decreases_to!(whole->Object_0 => whole->Object_0[key@]));
                    }
                    out.push((key, Json::from_value(item)));
                    assert(entries@ =~= all.subrange(out@.len() as int, all.len() as int));
                }
                assert(entry_values(out@) =~= tree);
                Json::Object(out)
            },
        }
    }

    /// The compact JSON text of this value.
    pub fn text(&self) -> (r: String)
        ensures
            r@ == json_text(self@),
            is_exact(self@) ==> json_parse(r@) == Some(self@),
    {
        value_text(&self.to_value())
    }

    /// Reads a JSON text.
    pub fn parse(s: &str) -> (r: Option<Json>)
        ensures
            match r {
                Some(v) => json_parse(s@) == Some(v@),
                None => json_parse(s@) is None,
            },
    {
        match parse_value(s) {
            Some(v) => Some(Json::from_value(v)),
            None => None,
        }
    }
}

/// Whether `key` is the key of an entry.
fn key_taken(entries: &Vec<(String, serde_json::Value)>, key: &str) -> (r: bool)
    ensures
        r == members(node_entries(entries@)).contains_key(key@),
{
    let ghost s = node_entries(entries@);
    proof {
        lemma_members_entries(s);
    }
    let mut i: usize = 0;
    while i < entries.len()
        invariant
            i <= entries@.len(),
            s == node_entries(entries@),
            forall|j: int| 0 <= j < i ==> (#[trigger] s[j]).0 != key@,
        decreases entries.len() - i,
    {
        assert(s[i as int].0 == entries@[i as int].0@);
        if text::same(entries[i].0.as_str(), key) {
            proof {
                lemma_members_entries(s);
            }
            return true;
        }
        i += 1;
    }
    false
}

/// What members of an object are. A member that is set is there as it was set, and every other one
/// as before; a member that is taken away is gone, and every other one as before. What is no object
/// has no members and gets none.
pub proof fn law_members_of_objects(v: JVal, key: Seq<char>, other: Seq<char>, value: JVal)
    ensures
        v is Object ==> v.with(key, value).get(key) == Some(value),
        v is Object && other != key ==> v.with(key, value).get(other) == v.get(other),
        v is Object ==> v.without(key).get(key) is None,
        v is Object && other != key ==> v.without(key).get(other) == v.get(other),
        !(v is Object) ==> v.get(key) is None && v.with(key, value) == v && v.without(key) == v,
        JVal::empty_object().get(key) is None,
{
}

/// How a member is read: as a text, a number or a list only where it is one. A text that is missing
/// is replaced by the given one, a missing list is empty, and a missing member is null.
pub proof fn law_reading_members(v: JVal, key: Seq<char>, default: Seq<char>)
    ensures
        v.text_at(key) == match v.get(key) {
            Some(JVal::Str(s)) => Some(s),
            _ => None,
        },
        v.text_or(key, default) == match v.get(key) {
            Some(JVal::Str(s)) => s,
            _ => default,
        },
        v.uint_at(key) == match v.get(key) {
            Some(JVal::Uint(n)) => Some(n),
            _ => None,
        },
        v.items_at(key) == match v.get(key) {
            Some(JVal::Array(items)) => items,
            _ => Seq::empty(),
        },
        v.at(key) == match v.get(key) {
            Some(x) => x,
            None => JVal::Null,
        },
{
}

/// How an item is read: by its place in a list, and null where there is none. The path `0` leads to
/// the first item of a list, and to the member of that name otherwise.
pub proof fn law_reading_items(v: JVal, items: Seq<JVal>, i: int)
    ensures
        0 <= i < items.len() ==> JVal::Array(items).item(i) == items[i],
        !(0 <= i < items.len()) ==> JVal::Array(items).item(i) == JVal::Null,
        items.len() > 0 ==> JVal::Array(items).first() == items[0],
        items.len() == 0 ==> JVal::Array(items).first() == JVal::Null,
        !(v is Array) ==> v.first() == v.at("0"@) && v.item(i) == JVal::Null,
{
}

} // verus!
