//! JSON values: the crate's own representation, and the passage to and from
//! `serde_json`, which reads and prints the text.

use vstd::prelude::*;
use vstd::utf8::encode_utf8;

use crate::text::{integer_text, same_text};

verus! {

// ---------------------------------------------------------------------------
// Values
// ---------------------------------------------------------------------------

/// A JSON number, held as `serde_json` holds it, so that it is printed as it was
/// read.
#[derive(Debug, PartialEq)]
pub struct JsonNumber {
    value: serde_json::Number,
}

/// A JSON object.
#[derive(Debug, PartialEq)]
pub struct JsonObject {
    pairs: Vec<(String, Json)>,
}

/// A JSON value.
#[derive(Debug, PartialEq)]
pub enum Json {
    Null,
    Bool(bool),
    Number(JsonNumber),
    Text(String),
    Array(Vec<Json>),
    Object(JsonObject),
}

/// What a number is: its value where it is an integer of 64 bits, and its
/// numeral.
#[verifier::ext_equal]
pub struct NumberView {
    pub unsigned: Option<u64>,
    pub signed: Option<i64>,
    pub text: Seq<char>,
}

/// What a JSON value is; an object maps keys to values.
#[verifier::ext_equal]
pub enum JsonView {
    Null,
    Bool(bool),
    Number(NumberView),
    Text(Seq<char>),
    Array(Seq<JsonView>),
    Object(Map<Seq<char>, JsonView>),
}

impl JsonNumber {
    pub closed spec fn view(self) -> NumberView {
        number_json(self.value)
    }
}

impl JsonObject {
    pub closed spec fn view(self) -> Map<Seq<char>, JsonView>
        decreases self,
    {
        pairs_view(self.pairs@)
    }
}

impl Json {
    pub open spec fn view(self) -> JsonView
        decreases self,
    {
        match self {
            Json::Null => JsonView::Null,
            Json::Bool(b) => JsonView::Bool(b),
            Json::Number(n) => JsonView::Number(n.view()),
            Json::Text(t) => JsonView::Text(t@),
            Json::Array(items) => JsonView::Array(list_view(items@)),
            Json::Object(object) => JsonView::Object(object.view()),
        }
    }
}

/// The values of a list.
pub open spec fn list_view(items: Seq<Json>) -> Seq<JsonView>
    decreases items,
{
    if items.len() == 0 {
        Seq::empty()
    } else {
        list_view(items.drop_last()).push(items.last().view())
    }
}

/// The map that a list of pairs stands for: of two pairs with one key the first
/// counts.
pub closed spec fn pairs_view(pairs: Seq<(String, Json)>) -> Map<Seq<char>, JsonView>
    decreases pairs,
{
    if pairs.len() == 0 {
        Map::empty()
    } else {
        let before = pairs_view(pairs.drop_last());
        if before.dom().contains(pairs.last().0@) {
            before
        } else {
            before.insert(pairs.last().0@, pairs.last().1.view())
        }
    }
}

pub proof fn lemma_list_view(items: Seq<Json>)
    ensures
        list_view(items).len() == items.len(),
        forall|i: int| 0 <= i < items.len() ==> list_view(items)[i] == (#[trigger] items[i]).view(),
    decreases items.len(),
{
    if items.len() > 0 {
        lemma_list_view(items.drop_last());
        assert forall|i: int| 0 <= i < items.len() implies list_view(items)[i] == (
        #[trigger] items[i]).view() by {
            if i < items.len() - 1 {
                assert(items[i] == items.drop_last()[i]);
            }
        }
    }
}

// ---------------------------------------------------------------------------
// Reading
// ---------------------------------------------------------------------------

/// The value under a key, where the value is an object that has the key.
pub open spec fn field(value: JsonView, key: Seq<char>) -> Option<JsonView> {
    match value {
        JsonView::Object(fields) => if fields.dom().contains(key) {
            Some(fields[key])
        } else {
            None
        },
        _ => None,
    }
}

pub open spec fn text_of_value(value: JsonView) -> Option<Seq<char>> {
    match value {
        JsonView::Text(t) => Some(t),
        _ => None,
    }
}

pub open spec fn bool_of_value(value: JsonView) -> Option<bool> {
    match value {
        JsonView::Bool(b) => Some(b),
        _ => None,
    }
}

pub open spec fn i64_of_value(value: JsonView) -> Option<i64> {
    match value {
        JsonView::Number(n) => n.signed,
        _ => None,
    }
}

pub open spec fn u64_of_value(value: JsonView) -> Option<u64> {
    match value {
        JsonView::Number(n) => n.unsigned,
        _ => None,
    }
}

pub open spec fn array_of_value(value: JsonView) -> Option<Seq<JsonView>> {
    match value {
        JsonView::Array(items) => Some(items),
        _ => None,
    }
}

/// The text under a key, where there is one.
pub open spec fn text_field(value: JsonView, key: Seq<char>) -> Option<Seq<char>> {
    match field(value, key) {
        Some(v) => text_of_value(v),
        None => None,
    }
}

/// The text under a key, or the empty one.
pub open spec fn text_or_empty(value: JsonView, key: Seq<char>) -> Seq<char> {
    match text_field(value, key) {
        Some(t) => t,
        None => Seq::empty(),
    }
}

/// The integer under a key, where there is one.
pub open spec fn i64_field(value: JsonView, key: Seq<char>) -> Option<i64> {
    match field(value, key) {
        Some(v) => i64_of_value(v),
        None => None,
    }
}

/// The truth value under a key, or false.
pub open spec fn bool_field(value: JsonView, key: Seq<char>) -> bool {
    match field(value, key) {
        Some(JsonView::Bool(b)) => b,
        _ => false,
    }
}

proof fn lemma_pairs_absent(pairs: Seq<(String, Json)>, key: Seq<char>)
    requires
        forall|j: int| 0 <= j < pairs.len() ==> (#[trigger] pairs[j]).0@ != key,
    ensures
        !pairs_view(pairs).dom().contains(key),
    decreases pairs.len(),
{
    if pairs.len() > 0 {
        let shorter = pairs.drop_last();
        assert forall|j: int| 0 <= j < shorter.len() implies (#[trigger] shorter[j]).0@ != key by {
            assert(shorter[j] == pairs[j]);
        }
        lemma_pairs_absent(shorter, key);
        assert(pairs[pairs.len() - 1].0@ != key);
    }
}

proof fn lemma_pairs_first(pairs: Seq<(String, Json)>, at: int)
    requires
        0 <= at < pairs.len(),
        forall|j: int| 0 <= j < at ==> (#[trigger] pairs[j]).0@ != pairs[at].0@,
    ensures
        pairs_view(pairs).dom().contains(pairs[at].0@),
        pairs_view(pairs)[pairs[at].0@] == pairs[at].1.view(),
    decreases pairs.len(),
{
    let shorter = pairs.drop_last();
    if at < shorter.len() {
        assert(shorter[at] == pairs[at]);
        assert forall|j: int| 0 <= j < at implies (#[trigger] shorter[j]).0@ != shorter[at].0@ by {
            assert(shorter[j] == pairs[j]);
        }
        lemma_pairs_first(shorter, at);
    } else {
        assert forall|j: int| 0 <= j < shorter.len() implies (#[trigger] shorter[j]).0@
            != pairs[at].0@ by {
            assert(shorter[j] == pairs[j]);
        }
        lemma_pairs_absent(shorter, pairs[at].0@);
    }
}

proof fn lemma_pairs_update(pairs: Seq<(String, Json)>, at: int, pair: (String, Json))
    requires
        0 <= at < pairs.len(),
        pairs[at].0@ == pair.0@,
        forall|j: int| 0 <= j < at ==> (#[trigger] pairs[j]).0@ != pair.0@,
    ensures
        pairs_view(pairs.update(at, pair)) == pairs_view(pairs).insert(pair.0@, pair.1.view()),
    decreases pairs.len(),
{
    let now = pairs.update(at, pair);
    let shorter = pairs.drop_last();
    if at == pairs.len() - 1 {
        assert(now.drop_last() =~= shorter);
        assert forall|j: int| 0 <= j < shorter.len() implies (#[trigger] shorter[j]).0@
            != pair.0@ by {
            assert(shorter[j] == pairs[j]);
        }
        lemma_pairs_absent(shorter, pair.0@);
        assert(pairs_view(now) =~= pairs_view(pairs).insert(pair.0@, pair.1.view()));
    } else {
        assert(now.drop_last() =~= shorter.update(at, pair));
        assert forall|j: int| 0 <= j < at implies (#[trigger] shorter[j]).0@ != pair.0@ by {
            assert(shorter[j] == pairs[j]);
        }
        lemma_pairs_update(shorter, at, pair);
        assert(shorter[at] == pairs[at]);
        lemma_pairs_first(shorter, at);
        assert(now.last() == pairs.last());
        assert(pairs_view(now) =~= pairs_view(pairs).insert(pair.0@, pair.1.view()));
    }
}

impl JsonObject {
    /// The object without fields.
    pub fn new() -> (r: Self)
        ensures
            r@ == Map::<Seq<char>, JsonView>::empty(),
    {
        JsonObject { pairs: Vec::new() }
    }

    /// The place of the first pair with the key.
    fn find(&self, key: &str) -> (r: Option<usize>)
        ensures
            match r {
                Some(i) => i < self.pairs@.len() && self.pairs@[i as int].0@ == key@ && (forall|
                    j: int,
                |
                    0 <= j < i ==> (#[trigger] self.pairs@[j]).0@ != key@),
                None => forall|j: int|
                    0 <= j < self.pairs@.len() ==> (#[trigger] self.pairs@[j]).0@ != key@,
            },
    {
        let mut i: usize = 0;
        while i < self.pairs.len()
            invariant
                0 <= i <= self.pairs@.len(),
                forall|j: int| 0 <= j < i ==> (#[trigger] self.pairs@[j]).0@ != key@,
            decreases self.pairs@.len() - i,
        {
            if same_text(self.pairs[i].0.as_str(), key) {
                return Some(i);
            }
            i = i + 1;
        }
        None
    }

    /// The value under a key.
    pub fn get<'a>(&'a self, key: &str) -> (r: Option<&'a Json>)
        ensures
            match r {
                Some(v) => self@.dom().contains(key@) && self@[key@] == v@,
                None => !self@.dom().contains(key@),
            },
    {
        match self.find(key) {
            Some(i) => {
                proof {
                    lemma_pairs_first(self.pairs@, i as int);
                }
                Some(&self.pairs[i].1)
            },
            None => {
                proof {
                    lemma_pairs_absent(self.pairs@, key@);
                }
                None
            },
        }
    }

    /// Puts a value under a key, in place of the one that was there.
    pub fn insert(&mut self, key: &str, value: Json)
        ensures
            final(self)@ == old(self)@.insert(key@, value@),
    {
        let ghost before = self.pairs@;
        let ghost view = value@;
        match self.find(key) {
            Some(i) => {
                let pair = (key.to_owned(), value);
                proof {
                    lemma_pairs_update(before, i as int, pair);
                }
                self.pairs.set(i, pair);
            },
            None => {
                proof {
                    lemma_pairs_absent(before, key@);
                }
                self.pairs.push((key.to_owned(), value));
                assert(self.pairs@.drop_last() =~= before);
            },
        }
    }

    /// The object with a field more.
    pub fn with(self, key: &str, value: Json) -> (r: Self)
        ensures
            r@ == self@.insert(key@, value@),
    {
        let mut object = self;
        object.insert(key, value);
        object
    }

    /// A copy of the object.
    fn copy(&self) -> (r: Self)
        ensures
            r@ == self@,
        decreases self,
    {
        let mut pairs: Vec<(String, Json)> = Vec::new();
        let mut i: usize = 0;
        assert(self.pairs@.take(0) =~= Seq::<(String, Json)>::empty());
        while i < self.pairs.len()
            invariant
                0 <= i <= self.pairs@.len(),
                pairs_view(pairs@) == pairs_view(self.pairs@.take(i as int)),
            decreases self.pairs@.len() - i,
        {
            let ghost before = pairs@;
            let key = self.pairs[i].0.clone();
            let value = self.pairs[i].1.copy();
            pairs.push((key, value));
            assert(pairs@.drop_last() =~= before);
            assert(self.pairs@.take(i + 1).drop_last() =~= self.pairs@.take(i as int));
            i = i + 1;
        }
        assert(self.pairs@.take(i as int) =~= self.pairs@);
        JsonObject { pairs }
    }
}

/// A copy of the values of a list.
pub fn copy_list(items: &Vec<Json>) -> (r: Vec<Json>)
    ensures
        list_view(r@) == list_view(items@),
    decreases items,
{
    let mut list: Vec<Json> = Vec::new();
    let mut i: usize = 0;
    assert(items@.take(0) =~= Seq::<Json>::empty());
    while i < items.len()
        invariant
            0 <= i <= items@.len(),
            list_view(list@) == list_view(items@.take(i as int)),
        decreases items@.len() - i,
    {
        let ghost before = list@;
        let item = items[i].copy();
        list.push(item);
        assert(list@.drop_last() =~= before);
        assert(items@.take(i + 1).drop_last() =~= items@.take(i as int));
        i = i + 1;
    }
    assert(items@.take(i as int) =~= items@);
    list
}

impl JsonNumber {
    /// A copy of the number.
    fn copy(&self) -> (r: Self)
        ensures
            r@ == self@,
    {
        JsonNumber { value: copy_number(&self.value) }
    }

    /// The number, where it is an integer of 64 bits without a sign.
    pub fn unsigned(&self) -> (r: Option<u64>)
        ensures
            r == self@.unsigned,
            r matches Some(n) ==> self@ == int_number(n as int),
    {
        open_number(&self.value).unsigned
    }

    /// The number, where it is an integer of 64 bits with a sign.
    pub fn signed(&self) -> (r: Option<i64>)
        ensures
            r == self@.signed,
            r matches Some(n) ==> self@ == int_number(n as int),
    {
        open_number(&self.value).signed
    }

    /// The numeral.
    pub fn text(&self) -> (r: String)
        ensures
            r@ == self@.text,
    {
        open_number(&self.value).text
    }
}

impl Json {
    /// A copy of the value.
    pub fn copy(&self) -> (r: Self)
        ensures
            r@ == self@,
        decreases self,
    {
        match self {
            Json::Null => Json::Null,
            Json::Bool(b) => Json::Bool(*b),
            Json::Number(n) => Json::Number(n.copy()),
            Json::Text(t) => Json::Text(t.clone()),
            Json::Array(items) => Json::Array(copy_list(items)),
            Json::Object(object) => Json::Object(object.copy()),
        }
    }

    /// The value under a key, where this is an object that has the key.
    pub fn get<'a>(&'a self, key: &str) -> (r: Option<&'a Json>)
        ensures
            match r {
                Some(v) => field(self@, key@) == Some(v@),
                None => field(self@, key@) is None,
            },
    {
        match self {
            Json::Object(object) => object.get(key),
            _ => None,
        }
    }

    /// The text, where this is one.
    pub fn as_str<'a>(&'a self) -> (r: Option<&'a str>)
        ensures
            match r {
                Some(t) => text_of_value(self@) == Some(t@),
                None => text_of_value(self@) is None,
            },
    {
        match self {
            Json::Text(t) => Some(t.as_str()),
            _ => None,
        }
    }

    /// The truth value, where this is one.
    pub fn as_bool(&self) -> (r: Option<bool>)
        ensures
            r == bool_of_value(self@),
    {
        match self {
            Json::Bool(b) => Some(*b),
            _ => None,
        }
    }

    /// The number, where this is an integer of 64 bits with a sign.
    pub fn as_i64(&self) -> (r: Option<i64>)
        ensures
            r == i64_of_value(self@),
    {
        match self {
            Json::Number(n) => n.signed(),
            _ => None,
        }
    }

    /// The number, where this is an integer of 64 bits without a sign.
    pub fn as_u64(&self) -> (r: Option<u64>)
        ensures
            r == u64_of_value(self@),
    {
        match self {
            Json::Number(n) => n.unsigned(),
            _ => None,
        }
    }

    /// The items, where this is an array.
    pub fn as_array<'a>(&'a self) -> (r: Option<&'a Vec<Json>>)
        ensures
            match r {
                Some(items) => array_of_value(self@) == Some(list_view(items@)),
                None => array_of_value(self@) is None,
            },
    {
        match self {
            Json::Array(items) => Some(items),
            _ => None,
        }
    }

    /// The text under a key, where there is one.
    pub fn text_at<'a>(&'a self, key: &str) -> (r: Option<&'a str>)
        ensures
            match r {
                Some(t) => text_field(self@, key@) == Some(t@),
                None => text_field(self@, key@) is None,
            },
    {
        match self.get(key) {
            Some(v) => v.as_str(),
            None => None,
        }
    }

    /// The integer under a key, where there is one.
    pub fn i64_at(&self, key: &str) -> (r: Option<i64>)
        ensures
            r == i64_field(self@, key@),
    {
        match self.get(key) {
            Some(v) => v.as_i64(),
            None => None,
        }
    }

    /// The truth value under a key, or false.
    pub fn bool_at(&self, key: &str) -> (r: bool)
        ensures
            r == bool_field(self@, key@),
    {
        match self.get(key) {
            Some(Json::Bool(b)) => *b,
            _ => false,
        }
    }
}

// ---------------------------------------------------------------------------
// Building
// ---------------------------------------------------------------------------

/// The number that stands for an integer.
pub open spec fn int_number(n: int) -> NumberView {
    NumberView {
        unsigned: if 0 <= n <= u64::MAX {
            Some(n as u64)
        } else {
            None
        },
        signed: if i64::MIN <= n <= i64::MAX {
            Some(n as i64)
        } else {
            None
        },
        text: integer_text(n),
    }
}

/// The value for an optional integer: `null` where there is none.
pub open spec fn opt_i64_json(n: Option<i64>) -> JsonView {
    match n {
        Some(v) => JsonView::Number(int_number(v as int)),
        None => JsonView::Null,
    }
}

/// The value for an optional integer: `null` where there is none.
pub open spec fn opt_u64_json(n: Option<u64>) -> JsonView {
    match n {
        Some(v) => JsonView::Number(int_number(v as int)),
        None => JsonView::Null,
    }
}

/// The value for an optional text: `null` where there is none.
pub open spec fn opt_text_json(text: Option<Seq<char>>) -> JsonView {
    match text {
        Some(t) => JsonView::Text(t),
        None => JsonView::Null,
    }
}

/// The array of texts.
pub open spec fn texts_json(list: Seq<Seq<char>>) -> JsonView {
    JsonView::Array(Seq::new(list.len(), |i: int| JsonView::Text(list[i])))
}

impl Json {
    /// The value for a text.
    pub fn text(text: &str) -> (r: Self)
        ensures
            r@ == JsonView::Text(text@),
    {
        Json::Text(text.to_owned())
    }

    /// The value for an integer.
    pub fn unsigned(n: u64) -> (r: Self)
        ensures
            r@ == JsonView::Number(int_number(n as int)),
    {
        Json::Number(JsonNumber { value: number_of_u64(n) })
    }

    /// The value for an integer.
    pub fn signed(n: i64) -> (r: Self)
        ensures
            r@ == JsonView::Number(int_number(n as int)),
    {
        Json::Number(JsonNumber { value: number_of_i64(n) })
    }

    /// The value for an optional integer.
    pub fn opt_signed(n: Option<i64>) -> (r: Self)
        ensures
            r@ == opt_i64_json(n),
    {
        match n {
            Some(v) => Json::signed(v),
            None => Json::Null,
        }
    }

    /// The value for an optional integer.
    pub fn opt_unsigned(n: Option<u64>) -> (r: Self)
        ensures
            r@ == opt_u64_json(n),
    {
        match n {
            Some(v) => Json::unsigned(v),
            None => Json::Null,
        }
    }

    /// The value for an optional text.
    pub fn opt_text(text: &Option<String>) -> (r: Self)
        ensures
            r@ == opt_text_json(crate::text::opt_text(*text)),
    {
        match text {
            Some(t) => Json::text(t.as_str()),
            None => Json::Null,
        }
    }

    /// The array of texts.
    pub fn texts(list: &Vec<String>) -> (r: Self)
        ensures
            r@ == texts_json(crate::text::texts(list@)),
    {
        let mut items: Vec<Json> = Vec::new();
        let mut i: usize = 0;
        while i < list.len()
            invariant
                0 <= i <= list@.len(),
                items@.len() == i,
                forall|j: int|
                    0 <= j < i ==> (#[trigger] items@[j])@ == JsonView::Text(list@[j]@),
            decreases list@.len() - i,
        {
            items.push(Json::text(list[i].as_str()));
            i = i + 1;
        }
        proof {
            lemma_list_view(items@);
            let want = Seq::new(
                list@.len(),
                |i: int| JsonView::Text(crate::text::texts(list@)[i]),
            );
            assert forall|j: int| 0 <= j < list@.len() implies list_view(items@)[j] == want[j] by {
                assert(items@[j]@ == JsonView::Text(list@[j]@));
            }
            assert(list_view(items@) =~= want);
        }
        Json::Array(items)
    }
}

// ---------------------------------------------------------------------------
// The passage to and from serde_json
// ---------------------------------------------------------------------------

/// The JSON value of the `serde_json` crate.
#[verifier::external_type_specification]
#[verifier::external_body]
pub struct ExValue(serde_json::Value);

/// The JSON number of the `serde_json` crate.
#[verifier::external_type_specification]
#[verifier::external_body]
pub struct ExNumber(serde_json::Number);

/// What a number of the `serde_json` crate is.
pub uninterp spec fn number_json(number: serde_json::Number) -> NumberView;

/// What a value of the `serde_json` crate holds.
pub uninterp spec fn value_json(value: serde_json::Value) -> JsonView;

/// What `serde_json::from_str` reads from a text; nothing where it fails.
pub uninterp spec fn parsed_json(text: Seq<char>) -> Option<JsonView>;

/// What `serde_json::from_slice` reads from bytes; nothing where it fails.
pub uninterp spec fn parsed_bytes(bytes: Seq<u8>) -> Option<JsonView>;

/// The compact text that `serde_json` prints for a value.
pub uninterp spec fn printed_json(value: JsonView) -> Seq<char>;

/// One layer of a value of the `serde_json` crate.
pub enum ValueParts<'a> {
    Null,
    Bool(bool),
    Number(&'a serde_json::Number),
    Text(String),
    Array(Vec<&'a serde_json::Value>),
    Object(Vec<(String, &'a serde_json::Value)>),
}

/// The map that arises where the pairs are put in one after another.
pub open spec fn entered(pairs: Seq<(String, &serde_json::Value)>) -> Map<Seq<char>, JsonView>
    decreases pairs.len(),
{
    if pairs.len() == 0 {
        Map::empty()
    } else {
        entered(pairs.drop_last()).insert(pairs.last().0@, value_json(*pairs.last().1))
    }
}

/// What the layer stands for.
pub open spec fn parts_json(parts: ValueParts) -> JsonView {
    match parts {
        ValueParts::Null => JsonView::Null,
        ValueParts::Bool(b) => JsonView::Bool(b),
        ValueParts::Number(n) => JsonView::Number(number_json(*n)),
        ValueParts::Text(t) => JsonView::Text(t@),
        ValueParts::Array(items) => JsonView::Array(
            Seq::new(items@.len(), |i: int| value_json(*items@[i])),
        ),
        ValueParts::Object(pairs) => JsonView::Object(entered(pairs@)),
    }
}

/// No key comes twice.
pub open spec fn distinct_keys(pairs: Seq<(String, &serde_json::Value)>) -> bool {
    forall|i: int, j: int|
        0 <= i < j < pairs.len() ==> (#[trigger] pairs[i]).0@ != (#[trigger] pairs[j]).0@
}

/// A number that is an integer has the numeral of that integer.
pub open spec fn number_agrees(n: NumberView) -> bool {
    &&& (n.unsigned matches Some(u) ==> n == int_number(u as int))
    &&& (n.signed matches Some(i) ==> n == int_number(i as int))
}

/// `serde_json::from_str` into a `Value`: fails exactly where the name says so,
/// and otherwise returns a value that holds what the name says.
#[verifier::external_body]
fn read_value(text: &str) -> (r: Option<serde_json::Value>)
    ensures
        match r {
            Some(v) => parsed_json(text@) == Some(value_json(v)),
            None => parsed_json(text@) is None,
        },
{
    serde_json::from_str::<serde_json::Value>(text).ok()
}

/// What can be learnt of a number of the `serde_json` crate.
pub struct NumberParts {
    pub unsigned: Option<u64>,
    pub signed: Option<i64>,
    pub text: String,
}

/// `Number::as_u64`, `Number::as_i64` and the number's `to_string`: the parts are
/// those of the number, and an integer's numeral is its decimal one.
#[verifier::external_body]
fn open_number(number: &serde_json::Number) -> (r: NumberParts)
    ensures
        r.unsigned == number_json(*number).unsigned,
        r.signed == number_json(*number).signed,
        r.text@ == number_json(*number).text,
        number_agrees(NumberView { unsigned: r.unsigned, signed: r.signed, text: r.text@ }),
{
    NumberParts { unsigned: number.as_u64(), signed: number.as_i64(), text: number.to_string() }
}

/// `Number::clone`: the same number.
#[verifier::external_body]
fn copy_number(number: &serde_json::Number) -> (r: serde_json::Number)
    ensures
        number_json(r) == number_json(*number),
{
    number.clone()
}

/// `Number::from` of a natural number: that number.
#[verifier::external_body]
fn number_of_u64(n: u64) -> (r: serde_json::Number)
    ensures
        number_json(r) == int_number(n as int),
{
    serde_json::Number::from(n)
}

/// `Number::from` of an integer: that number.
#[verifier::external_body]
fn number_of_i64(n: i64) -> (r: serde_json::Number)
    ensures
        number_json(r) == int_number(n as int),
{
    serde_json::Number::from(n)
}

/// The variants of `serde_json::Value`: the layer stands for what the value
/// holds, and a map has no key twice.
#[verifier::external_body]
fn open_value<'a>(value: &'a serde_json::Value) -> (r: ValueParts<'a>)
    ensures
        parts_json(r) == value_json(*value),
        r matches ValueParts::Object(pairs) ==> distinct_keys(pairs@),
{
    match value {
        serde_json::Value::Null => ValueParts::Null,
        serde_json::Value::Bool(b) => ValueParts::Bool(*b),
        serde_json::Value::Number(n) => ValueParts::Number(n),
        serde_json::Value::String(s) => ValueParts::Text(s.clone()),
        serde_json::Value::Array(a) => ValueParts::Array(a.iter().collect()),
        serde_json::Value::Object(m) => ValueParts::Object(
            m.iter().map(|(k, v)| (k.clone(), v)).collect(),
        ),
    }
}

proof fn lemma_entered(pairs: Seq<(String, &serde_json::Value)>, at: int)
    requires
        distinct_keys(pairs),
        0 <= at < pairs.len(),
    ensures
        entered(pairs).dom().finite(),
        entered(pairs).dom().contains(pairs[at].0@),
        entered(pairs)[pairs[at].0@] == value_json(*pairs[at].1),
    decreases pairs.len(),
{
    let shorter = pairs.drop_last();
    if at < shorter.len() {
        assert(distinct_keys(shorter)) by {
            assert forall|i: int, j: int| 0 <= i < j < shorter.len() implies (
            #[trigger] shorter[i]).0@ != (#[trigger] shorter[j]).0@ by {
                assert(shorter[i] == pairs[i] && shorter[j] == pairs[j]);
            }
        }
        lemma_entered(shorter, at);
        assert(pairs[at].0@ != pairs[pairs.len() - 1].0@);
    } else {
        lemma_entered_finite(shorter);
    }
}

proof fn lemma_entered_finite(pairs: Seq<(String, &serde_json::Value)>)
    ensures
        entered(pairs).dom().finite(),
    decreases pairs.len(),
{
    if pairs.len() > 0 {
        lemma_entered_finite(pairs.drop_last());
    }
}

/// The value that a value of the `serde_json` crate holds.
pub fn json_of_value(value: &serde_json::Value) -> (r: Json)
    ensures
        r@ == value_json(*value),
    decreases value_json(*value),
{
    match open_value(value) {
        ValueParts::Null => Json::Null,
        ValueParts::Bool(b) => Json::Bool(b),
        ValueParts::Number(n) => Json::Number(JsonNumber { value: copy_number(n) }),
        ValueParts::Text(t) => Json::Text(t),
        ValueParts::Array(items) => {
            let ghost inner = Seq::new(items@.len(), |i: int| value_json(*items@[i]));
            let mut list: Vec<Json> = Vec::new();
            let mut i: usize = 0;
            while i < items.len()
                invariant
                    0 <= i <= items@.len(),
                    inner == Seq::new(items@.len(), |i: int| value_json(*items@[i])),
                    value_json(*value) == JsonView::Array(inner),
                    list_view(list@) == inner.take(i as int),
                decreases items@.len() - i,
            {
                proof {
                    assert(inner[i as int] == value_json(*items@[i as int]));
                    assert(decreases_to!(value_json(*value) => value_json(*value)->Array_0));
                    assert(decreases_to!(inner => inner[i as int]));
                }
                let ghost before = list@;
                list.push(json_of_value(items[i]));
                assert(list@.drop_last() =~= before);
                assert(list_view(list@) =~= inner.take(i + 1));
                i = i + 1;
            }
            assert(inner.take(i as int) =~= inner);
            Json::Array(list)
        },
        ValueParts::Object(pairs) => {
            let mut object = JsonObject::new();
            let mut i: usize = 0;
            assert(pairs@.take(0) =~= Seq::<(String, &serde_json::Value)>::empty());
            while i < pairs.len()
                invariant
                    0 <= i <= pairs@.len(),
                    distinct_keys(pairs@),
                    value_json(*value) == JsonView::Object(entered(pairs@)),
                    object@ == entered(pairs@.take(i as int)),
                decreases pairs@.len() - i,
            {
                proof {
                    lemma_entered(pairs@, i as int);
                    assert(decreases_to!(value_json(*value) => value_json(*value)->Object_0));
                    assert(decreases_to!(entered(pairs@) => entered(pairs@)[pairs@[i as int].0@]));
                    assert(pairs@.take(i + 1).drop_last() =~= pairs@.take(i as int));
                }
                let item = json_of_value(pairs[i].1);
                object.insert(pairs[i].0.as_str(), item);
                i = i + 1;
            }
            assert(pairs@.take(i as int) =~= pairs@);
            Json::Object(object)
        },
    }
}

/// Reads a JSON text.
pub fn parse_json(text: &str) -> (r: Option<Json>)
    ensures
        match r {
            Some(j) => parsed_json(text@) == Some(j@),
            None => parsed_json(text@) is None,
        },
{
    match read_value(text) {
        Some(v) => Some(json_of_value(&v)),
        None => None,
    }
}

/// `serde_json::from_slice` into a `Value`: fails exactly where the name says so,
/// and otherwise returns a value that holds what the name says.
#[verifier::external_body]
fn read_value_bytes(bytes: &Vec<u8>) -> (r: Option<serde_json::Value>)
    ensures
        match r {
            Some(v) => parsed_bytes(bytes@) == Some(value_json(v)),
            None => parsed_bytes(bytes@) is None,
        },
{
    serde_json::from_slice::<serde_json::Value>(bytes).ok()
}

/// Reads a JSON text from its bytes.
pub fn parse_json_bytes(bytes: &Vec<u8>) -> (r: Option<Json>)
    ensures
        match r {
            Some(j) => parsed_bytes(bytes@) == Some(j@),
            None => parsed_bytes(bytes@) is None,
        },
{
    match read_value_bytes(bytes) {
        Some(v) => Some(json_of_value(&v)),
        None => None,
    }
}

/// One layer of a value that is to be made.
pub enum NewValue {
    Null,
    Bool(bool),
    Number(serde_json::Number),
    Text(String),
    Array(Vec<serde_json::Value>),
    Object(Vec<(String, serde_json::Value)>),
}

/// The map that arises where the pairs are put in one after another.
pub open spec fn collected(pairs: Seq<(String, serde_json::Value)>) -> Map<Seq<char>, JsonView>
    decreases pairs.len(),
{
    if pairs.len() == 0 {
        Map::empty()
    } else {
        collected(pairs.drop_last()).insert(pairs.last().0@, value_json(pairs.last().1))
    }
}

/// What the layer stands for.
pub open spec fn new_json(parts: NewValue) -> JsonView {
    match parts {
        NewValue::Null => JsonView::Null,
        NewValue::Bool(b) => JsonView::Bool(b),
        NewValue::Number(n) => JsonView::Number(number_json(n)),
        NewValue::Text(t) => JsonView::Text(t@),
        NewValue::Array(items) => JsonView::Array(
            Seq::new(items@.len(), |i: int| value_json(items@[i])),
        ),
        NewValue::Object(pairs) => JsonView::Object(collected(pairs@)),
    }
}

/// No key comes twice.
pub open spec fn distinct_new_keys(pairs: Seq<(String, serde_json::Value)>) -> bool {
    forall|i: int, j: int|
        0 <= i < j < pairs.len() ==> (#[trigger] pairs[i]).0@ != (#[trigger] pairs[j]).0@
}

/// The constructors of `serde_json::Value`: the value holds what the layer
/// stands for. Which of two pairs with one key stays is left open, so no key may
/// come twice.
#[verifier::external_body]
fn make_value(parts: NewValue) -> (r: serde_json::Value)
    requires
        parts matches NewValue::Object(pairs) ==> distinct_new_keys(pairs@),
    ensures
        value_json(r) == new_json(parts),
{
    match parts {
        NewValue::Null => serde_json::Value::Null,
        NewValue::Bool(b) => serde_json::Value::Bool(b),
        NewValue::Number(n) => serde_json::Value::Number(n),
        NewValue::Text(t) => serde_json::Value::String(t),
        NewValue::Array(items) => serde_json::Value::Array(items),
        NewValue::Object(pairs) => serde_json::Value::Object(pairs.into_iter().collect()),
    }
}

/// The `Display` of `serde_json::Value`: the text depends on what the value
/// holds alone. `serde_json::from_str` and `serde_json::from_slice` read the same
/// value from it, where its numbers are integers and it is nested no deeper than
/// they descend. Of a number with a fraction, which they may read back rounded
/// otherwise, nothing is claimed.
#[verifier::external_body]
fn print_value(value: &serde_json::Value) -> (r: String)
    ensures
        r@ == printed_json(value_json(*value)),
        plain(value_json(*value)) ==> parsed_json(r@) == Some(value_json(*value)) && parsed_bytes(
            encode_utf8(r@),
        ) == Some(value_json(*value)),
{
    value.to_string()
}

/// Whether a key is among the pairs.
fn has_key(pairs: &Vec<(String, serde_json::Value)>, key: &str) -> (r: bool)
    ensures
        r == collected(pairs@).dom().contains(key@),
        !r ==> forall|j: int| 0 <= j < pairs@.len() ==> (#[trigger] pairs@[j]).0@ != key@,
{
    let mut i: usize = 0;
    assert(pairs@.take(0) =~= Seq::<(String, serde_json::Value)>::empty());
    while i < pairs.len()
        invariant
            0 <= i <= pairs@.len(),
            !collected(pairs@.take(i as int)).dom().contains(key@),
            forall|j: int| 0 <= j < i ==> (#[trigger] pairs@[j]).0@ != key@,
        decreases pairs@.len() - i,
    {
        proof {
            assert(pairs@.take(i + 1).drop_last() =~= pairs@.take(i as int));
        }
        if same_text(pairs[i].0.as_str(), key) {
            proof {
                lemma_collected_has(pairs@, i as int);
            }
            return true;
        }
        i = i + 1;
    }
    assert(pairs@.take(i as int) =~= pairs@);
    false
}

proof fn lemma_collected_has(pairs: Seq<(String, serde_json::Value)>, at: int)
    requires
        0 <= at < pairs.len(),
    ensures
        collected(pairs).dom().contains(pairs[at].0@),
    decreases pairs.len(),
{
    if at < pairs.len() - 1 {
        lemma_collected_has(pairs.drop_last(), at);
    }
}

/// The value of the `serde_json` crate for an object.
fn value_of_object(object: &JsonObject) -> (r: serde_json::Value)
    ensures
        value_json(r) == JsonView::Object(object@),
    decreases object,
{
    let mut pairs: Vec<(String, serde_json::Value)> = Vec::new();
    let mut i: usize = 0;
    assert(object.pairs@.take(0) =~= Seq::<(String, Json)>::empty());
    while i < object.pairs.len()
        invariant
            0 <= i <= object.pairs@.len(),
            distinct_new_keys(pairs@),
            collected(pairs@) == pairs_view(object.pairs@.take(i as int)),
        decreases object.pairs@.len() - i,
    {
        proof {
            assert(object.pairs@.take(i + 1).drop_last() =~= object.pairs@.take(i as int));
        }
        if !has_key(&pairs, object.pairs[i].0.as_str()) {
            let ghost before = pairs@;
            let value = value_of_json(&object.pairs[i].1);
            pairs.push((object.pairs[i].0.clone(), value));
            assert(pairs@.drop_last() =~= before);
        }
        i = i + 1;
    }
    assert(object.pairs@.take(i as int) =~= object.pairs@);
    make_value(NewValue::Object(pairs))
}

/// The value of the `serde_json` crate for a list.
fn value_of_list(items: &Vec<Json>) -> (r: serde_json::Value)
    ensures
        value_json(r) == JsonView::Array(list_view(items@)),
    decreases items,
{
    let mut list: Vec<serde_json::Value> = Vec::new();
    let mut i: usize = 0;
    proof {
        lemma_list_view(items@);
    }
    while i < items.len()
        invariant
            0 <= i <= items@.len(),
            list@.len() == i,
            forall|j: int|
                0 <= j < i ==> value_json(#[trigger] list@[j]) == items@[j].view(),
        decreases items@.len() - i,
    {
        list.push(value_of_json(&items[i]));
        i = i + 1;
    }
    assert(Seq::new(list@.len(), |i: int| value_json(list@[i])) =~= list_view(items@));
    make_value(NewValue::Array(list))
}

/// The value of the `serde_json` crate for a JSON value.
pub fn value_of_json(json: &Json) -> (r: serde_json::Value)
    ensures
        value_json(r) == json@,
    decreases json,
{
    match json {
        Json::Null => make_value(NewValue::Null),
        Json::Bool(b) => make_value(NewValue::Bool(*b)),
        Json::Number(n) => make_value(NewValue::Number(copy_number(&n.value))),
        Json::Text(t) => make_value(NewValue::Text(t.clone())),
        Json::Array(items) => value_of_list(items),
        Json::Object(object) => value_of_object(object),
    }
}

/// The compact text of a JSON value.
pub fn json_text(json: &Json) -> (r: String)
    ensures
        r@ == printed_json(json@),
        plain(json@) ==> parsed_json(r@) == Some(json@) && parsed_bytes(encode_utf8(r@)) == Some(
            json@,
        ),
{
    let value = value_of_json(json);
    print_value(&value)
}

/// A value that is nested at most so many lists and objects deep.
pub open spec fn nested_within(value: JsonView, depth: nat) -> bool
    decreases value,
{
    match value {
        JsonView::Array(items) => depth > 0 && forall|i: int|
            0 <= i < items.len() ==> nested_within(#[trigger] items[i], (depth - 1) as nat),
        JsonView::Object(fields) => depth > 0 && forall|k: Seq<char>| #[trigger]
            fields.dom().contains(k) ==> nested_within(fields[k], (depth - 1) as nat),
        _ => true,
    }
}

/// A value that comes back from its text: its numbers are integers, and it is
/// nested at most 127 deep.
pub open spec fn plain(value: JsonView) -> bool {
    integral(value) && nested_within(value, 127)
}

/// A value whose numbers are integers of 64 bits with their decimal numerals.
pub open spec fn integral(value: JsonView) -> bool
    decreases value,
{
    match value {
        JsonView::Number(n) => number_agrees(n) && (n.unsigned is Some || n.signed is Some),
        JsonView::Array(items) => forall|i: int|
            0 <= i < items.len() ==> integral(#[trigger] items[i]),
        JsonView::Object(fields) => forall|k: Seq<char>| #[trigger]
            fields.dom().contains(k) ==> integral(fields[k]),
        _ => true,
    }
}

// ---------------------------------------------------------------------------
// Laws of fields
// ---------------------------------------------------------------------------

/// A value that is put under a key is found there as what it is, and as nothing
/// else, and the other keys give what they gave before.
pub proof fn law_fields_hold_what_was_put(
    fields: Map<Seq<char>, JsonView>,
    key: Seq<char>,
    other: Seq<char>,
    text: Seq<char>,
    flag: bool,
    n: int,
    items: Seq<JsonView>,
)
    requires
        other != key,
    ensures
        ({
            let with_text = JsonView::Object(fields.insert(key, JsonView::Text(text)));
            let with_flag = JsonView::Object(fields.insert(key, JsonView::Bool(flag)));
            let with_number = JsonView::Object(fields.insert(key, JsonView::Number(int_number(n))));
            let with_list = JsonView::Object(fields.insert(key, JsonView::Array(items)));
            let before = JsonView::Object(fields);
            &&& field(with_text, key) == Some(JsonView::Text(text))
            &&& text_field(with_text, key) == Some(text)
            &&& text_or_empty(with_text, key) == text
            &&& i64_field(with_text, key) is None
            &&& !bool_field(with_text, key)
            &&& bool_field(with_flag, key) == flag
            &&& text_field(with_flag, key) is None
            &&& text_or_empty(with_flag, key).len() == 0
            &&& i64::MIN <= n <= i64::MAX ==> i64_field(with_number, key) == Some(n as i64)
            &&& 0 <= n <= u64::MAX ==> u64_of_value(JsonView::Number(int_number(n))) == Some(
                n as u64,
            )
            &&& n < 0 ==> u64_of_value(JsonView::Number(int_number(n))) is None
            &&& array_of_value(field(with_list, key)->0) == Some(items)
            &&& bool_of_value(JsonView::Bool(flag)) == Some(flag)
            &&& field(with_text, other) == field(before, other)
            &&& text_field(with_text, other) == text_field(before, other)
            &&& bool_field(with_text, other) == bool_field(before, other)
        }),
{
}

/// An optional value is written as itself, or as `null`.
pub proof fn law_optional_values_are_written(n: i64, m: u64, text: Seq<char>)
    ensures
        i64_of_value(opt_i64_json(Some(n))) == Some(n),
        opt_i64_json(None) is Null,
        u64_of_value(opt_u64_json(Some(m))) == Some(m),
        opt_u64_json(None) is Null,
        text_of_value(opt_text_json(Some(text))) == Some(text),
        opt_text_json(None) is Null,
{
}

/// A list of texts is written in order.
pub proof fn law_texts_are_written_in_order(list: Seq<Seq<char>>)
    ensures
        array_of_value(texts_json(list)) matches Some(items) && items.len() == list.len()
            && forall|i: int|
            0 <= i < list.len() ==> text_of_value(#[trigger] items[i]) == Some(list[i]),
{
}

} // verus!
