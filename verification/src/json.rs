//! JSON values, as the runtime reads and builds them.

use crate::text;
use vstd::prelude::*;

verus! {

/// A number of a JSON text: its value where it is an unsigned integer that
/// fits in 64 bits, and the text that it is written as.
#[derive(Debug, PartialEq, Eq)]
pub struct JsonNumber {
    pub unsigned: Option<u64>,
    pub literal: String,
}

/// A JSON value.
#[derive(Debug, PartialEq, Eq)]
pub enum Json {
    Null,
    Bool(bool),
    Number(JsonNumber),
    Text(String),
    Array(Vec<Json>),
    Object(Vec<JsonMember>),
}

/// A member of a JSON object.
#[derive(Debug, PartialEq, Eq)]
pub struct JsonMember {
    pub key: String,
    pub value: Json,
}

/// What a JSON value holds. An object is the sequence of its members.
pub enum JsonView {
    Null,
    Bool(bool),
    Number(Option<u64>, Seq<char>),
    Text(Seq<char>),
    Array(Seq<JsonView>),
    Object(Seq<(Seq<char>, JsonView)>),
}

pub open spec fn json_view(j: Json) -> JsonView
    decreases j,
{
    match j {
        Json::Null => JsonView::Null,
        Json::Bool(b) => JsonView::Bool(b),
        Json::Number(n) => JsonView::Number(n.unsigned, n.literal@),
        Json::Text(s) => JsonView::Text(s@),
        Json::Array(a) => JsonView::Array(
            Seq::new(
                a@.len(),
                |i: int|
                    if 0 <= i < a@.len() {
                        json_view(a@[i])
                    } else {
                        JsonView::Null
                    },
            ),
        ),
        Json::Object(m) => JsonView::Object(
            Seq::new(
                m@.len(),
                |i: int|
                    if 0 <= i < m@.len() {
                        (m@[i].key@, json_view(m@[i].value))
                    } else {
                        (Seq::empty(), JsonView::Null)
                    },
            ),
        ),
    }
}

impl View for Json {
    type V = JsonView;

    open spec fn view(&self) -> JsonView {
        json_view(*self)
    }
}


/// The value of the first member of `m` with the key `key`.
pub open spec fn lookup(m: Seq<(Seq<char>, JsonView)>, key: Seq<char>) -> Option<JsonView>
    decreases m.len(),
{
    if m.len() == 0 {
        None
    } else if m[0].0 == key {
        Some(m[0].1)
    } else {
        lookup(m.drop_first(), key)
    }
}

impl JsonView {
    /// The member `key` of an object.
    pub open spec fn get(self, key: Seq<char>) -> Option<JsonView> {
        match self {
            JsonView::Object(m) => lookup(m, key),
            _ => None,
        }
    }

    /// The text of a string.
    pub open spec fn as_str(self) -> Option<Seq<char>> {
        match self {
            JsonView::Text(s) => Some(s),
            _ => None,
        }
    }

    /// The value of an unsigned integer.
    pub open spec fn as_u64(self) -> Option<u64> {
        match self {
            JsonView::Number(n, _) => n,
            _ => None,
        }
    }

    /// The value of a boolean.
    pub open spec fn as_bool(self) -> Option<bool> {
        match self {
            JsonView::Bool(b) => Some(b),
            _ => None,
        }
    }

    /// The elements of an array.
    pub open spec fn as_array(self) -> Option<Seq<JsonView>> {
        match self {
            JsonView::Array(a) => Some(a),
            _ => None,
        }
    }

    /// The text of the member `key`, where that is a string.
    pub open spec fn str_at(self, key: Seq<char>) -> Option<Seq<char>> {
        match self.get(key) {
            Some(v) => v.as_str(),
            None => None,
        }
    }

    /// The value of the member `key`, where that is an unsigned integer.
    pub open spec fn u64_at(self, key: Seq<char>) -> Option<u64> {
        match self.get(key) {
            Some(v) => v.as_u64(),
            None => None,
        }
    }

    /// The value of the member `key`, where that is a boolean.
    pub open spec fn bool_at(self, key: Seq<char>) -> Option<bool> {
        match self.get(key) {
            Some(v) => v.as_bool(),
            None => None,
        }
    }

    /// The elements of the member `key`, where that is an array.
    pub open spec fn array_at(self, key: Seq<char>) -> Option<Seq<JsonView>> {
        match self.get(key) {
            Some(v) => v.as_array(),
            None => None,
        }
    }
}

/// What each value of a sequence holds.
pub open spec fn views(a: Seq<Json>) -> Seq<JsonView> {
    a.map_values(|j: Json| j@)
}

/// What each member of a sequence holds.
pub open spec fn member_views(m: Seq<JsonMember>) -> Seq<(Seq<char>, JsonView)> {
    m.map_values(|x: JsonMember| (x.key@, x.value@))
}

/// What an optional value holds.
pub open spec fn opt_view(o: Option<Json>) -> Option<JsonView> {
    match o {
        Some(j) => Some(j@),
        None => None,
    }
}

/// The view of an array or an object, member by member.
pub proof fn lemma_view_parts(j: Json)
    ensures
        j matches Json::Array(a) ==> j@ == JsonView::Array(views(a@)),
        j matches Json::Object(m) ==> j@ == JsonView::Object(member_views(m@)),
{
    match j {
        Json::Array(a) => {
            assert(j@->Array_0 =~= views(a@));
        },
        Json::Object(m) => {
            assert(j@->Object_0 =~= member_views(m@));
        },
        _ => {},
    }
}

impl Clone for JsonNumber {
    fn clone(&self) -> (r: Self)
        ensures
            r == *self,
    {
        JsonNumber { unsigned: self.unsigned, literal: self.literal.clone() }
    }
}

impl Clone for Json {
    fn clone(&self) -> (r: Self)
        ensures
            r@ == self@,
        decreases self,
    {
        match self {
            Json::Null => Json::Null,
            Json::Bool(b) => Json::Bool(*b),
            Json::Number(n) => Json::Number(n.clone()),
            Json::Text(s) => Json::Text(s.clone()),
            Json::Array(a) => {
                let mut out: Vec<Json> = Vec::new();
                let mut i: usize = 0;
                while i < a.len()
                    invariant
                        i <= a@.len(),
                        *self == Json::Array(*a),
                        views(out@) == views(a@).take(i as int),
                    decreases a@.len() - i,
                {
                    proof {
                        assert(decreases_to!(*self => self->Array_0));
                        assert(decreases_to!(self->Array_0 => a@));
                        assert(decreases_to!(a@ => a@[i as int]));
                    }
                    let ghost before: Seq<Json> = out@;
                    let c: Json = a[i].clone();
                    out.push(c);
                    proof {
                        assert(views(out@) =~= views(before).push(a@[i as int]@));
                        assert(views(out@) =~= views(a@).take(i + 1));
                    }
                    i = i + 1;
                }
                let r: Json = Json::Array(out);
                proof {
                    assert(views(a@).take(a@.len() as int) =~= views(a@));
                    lemma_view_parts(r);
                    lemma_view_parts(*self);
                }
                r
            },
            Json::Object(m) => {
                let mut out: Vec<JsonMember> = Vec::new();
                let mut i: usize = 0;
                while i < m.len()
                    invariant
                        i <= m@.len(),
                        *self == Json::Object(*m),
                        member_views(out@) == member_views(m@).take(i as int),
                    decreases m@.len() - i,
                {
                    proof {
                        assert(decreases_to!(*self => self->Object_0));
                        assert(decreases_to!(self->Object_0 => m@));
                        assert(decreases_to!(m@ => m@[i as int]));
                        assert(decreases_to!(m@[i as int] => m@[i as int].value));
                    }
                    let ghost before: Seq<JsonMember> = out@;
                    let c: JsonMember = JsonMember {
                        key: m[i].key.clone(),
                        value: m[i].value.clone(),
                    };
                    out.push(c);
                    proof {
                        assert(member_views(out@) =~= member_views(before).push(
                            (m@[i as int].key@, m@[i as int].value@),
                        ));
                        assert(member_views(out@) =~= member_views(m@).take(i + 1));
                    }
                    i = i + 1;
                }
                let r: Json = Json::Object(out);
                proof {
                    assert(member_views(m@).take(m@.len() as int) =~= member_views(m@));
                    lemma_view_parts(r);
                    lemma_view_parts(*self);
                }
                r
            },
        }
    }
}

impl Json {
    /// The member `key` of an object.
    pub fn get(&self, key: &str) -> (r: Option<&Json>)
        ensures
            match r {
                Some(v) => self@.get(key@) == Some(v@),
                None => self@.get(key@) is None,
            },
    {
        match self {
            Json::Object(m) => {
                proof {
                    lemma_view_parts(*self);
                }
                let ghost all: Seq<(Seq<char>, JsonView)> = member_views(m@);
                proof {
                    assert(all.skip(0) =~= all);
                }
                let mut i: usize = 0;
                while i < m.len()
                    invariant
                        i <= m@.len(),
                        all == member_views(m@),
                        self@ == JsonView::Object(all),
                        lookup(all, key@) == lookup(all.skip(i as int), key@),
                    decreases m@.len() - i,
                {
                    proof {
                        assert(all.skip(i as int).drop_first() =~= all.skip(i + 1));
                    }
                    if text::same_text(m[i].key.as_str(), key) {
                        return Some(&m[i].value);
                    }
                    i = i + 1;
                }
                None
            },
            _ => None,
        }
    }

    /// The text of a string.
    pub fn as_str(&self) -> (r: Option<&String>)
        ensures
            match r {
                Some(s) => self@.as_str() == Some(s@),
                None => self@.as_str() is None,
            },
    {
        match self {
            Json::Text(s) => Some(s),
            _ => None,
        }
    }

    /// The value of an unsigned integer.
    pub fn as_u64(&self) -> (r: Option<u64>)
        ensures
            r == self@.as_u64(),
    {
        match self {
            Json::Number(n) => n.unsigned,
            _ => None,
        }
    }

    /// The value of a boolean.
    pub fn as_bool(&self) -> (r: Option<bool>)
        ensures
            r == self@.as_bool(),
    {
        match self {
            Json::Bool(b) => Some(*b),
            _ => None,
        }
    }

    /// The elements of an array.
    pub fn as_array(&self) -> (r: Option<&Vec<Json>>)
        ensures
            match r {
                Some(a) => self@.as_array() == Some(views(a@)),
                None => self@.as_array() is None,
            },
    {
        proof {
            lemma_view_parts(*self);
        }
        match self {
            Json::Array(a) => Some(a),
            _ => None,
        }
    }

    /// A copy of the text of the member `key`, where that is a string.
    pub fn str_at(&self, key: &str) -> (r: Option<String>)
        ensures
            text::opt_text(r) == self@.str_at(key@),
    {
        match self.get(key) {
            Some(v) => match v.as_str() {
                Some(s) => Some(s.clone()),
                None => None,
            },
            None => None,
        }
    }

    /// The value of the member `key`, where that is an unsigned integer.
    pub fn u64_at(&self, key: &str) -> (r: Option<u64>)
        ensures
            r == self@.u64_at(key@),
    {
        match self.get(key) {
            Some(v) => v.as_u64(),
            None => None,
        }
    }

    /// The value of the member `key`, where that is a boolean.
    pub fn bool_at(&self, key: &str) -> (r: Option<bool>)
        ensures
            r == self@.bool_at(key@),
    {
        match self.get(key) {
            Some(v) => v.as_bool(),
            None => None,
        }
    }

    /// The elements of the member `key`, where that is an array.
    pub fn array_at(&self, key: &str) -> (r: Option<&Vec<Json>>)
        ensures
            match r {
                Some(a) => self@.array_at(key@) == Some(views(a@)),
                None => self@.array_at(key@) is None,
            },
    {
        match self.get(key) {
            Some(v) => v.as_array(),
            None => None,
        }
    }
}

/// The texts of `names`.
pub open spec fn name_texts(names: Seq<&str>) -> Seq<Seq<char>> {
    names.map_values(|s: &str| s@)
}

/// `v` with its members named: an object may be written as the array of its
/// members' values, in the order of `names`, of which the first `required` have to
/// be there. Other values stay as they are.
pub open spec fn named(v: JsonView, names: Seq<Seq<char>>, required: nat) -> JsonView {
    match v {
        JsonView::Array(a) => if required <= a.len() <= names.len() {
            JsonView::Object(Seq::new(a.len(), |i: int| (names[i], a[i])))
        } else {
            v
        },
        _ => v,
    }
}

/// The object that an array stands for, see `named`; `None` where `v` stays as it is.
pub fn name_elements(v: &Json, names: &Vec<&'static str>, required: usize) -> (r: Option<Json>)
    ensures
        match r {
            Some(o) => o@ == named(v@, name_texts(names@), required as nat),
            None => named(v@, name_texts(names@), required as nat) == v@,
        },
{
    proof {
        lemma_view_parts(*v);
    }
    let a: &Vec<Json> = match v {
        Json::Array(a) => a,
        _ => {
            return None;
        },
    };
    if a.len() < required || a.len() > names.len() {
        return None;
    }
    let mut m: Vec<JsonMember> = Vec::new();
    let ghost goal: Seq<(Seq<char>, JsonView)> = Seq::new(
        a@.len(),
        |i: int| (name_texts(names@)[i], views(a@)[i]),
    );
    let mut i: usize = 0;
    proof {
        assert(member_views(m@) =~= goal.take(0));
    }
    while i < a.len()
        invariant
            i <= a@.len() <= names@.len(),
            goal == Seq::new(
                a@.len(),
                |i: int| (name_texts(names@)[i], views(a@)[i]),
            ),
            member_views(m@) == goal.take(i as int),
        decreases a@.len() - i,
    {
        add_member(&mut m, names[i], a[i].clone());
        proof {
            assert(goal.take(i + 1) =~= goal.take(i as int).push(goal[i as int]));
        }
        i = i + 1;
    }
    proof {
        assert(goal.take(a@.len() as int) =~= goal);
    }
    Some(object_value(m))
}

/// The view of an integer.
pub open spec fn integer_view(n: u64) -> JsonView {
    JsonView::Number(Some(n), text::decimal(n as nat))
}

/// A string.
pub fn text_value(s: &str) -> (r: Json)
    ensures
        r@ == JsonView::Text(s@),
{
    Json::Text(s.to_string())
}

/// An integer.
pub fn integer_value(n: u64) -> (r: Json)
    ensures
        r@ == integer_view(n),
{
    Json::Number(JsonNumber { unsigned: Some(n), literal: text::decimal_text(n) })
}

/// The view of an integer that may be negative.
pub open spec fn signed_view(n: i64) -> JsonView {
    if n < 0 {
        JsonView::Number(None, seq!['-'] + text::decimal((-n) as nat))
    } else {
        integer_view(n as u64)
    }
}

/// An integer that may be negative.
pub fn signed_value(n: i64) -> (r: Json)
    ensures
        r@ == signed_view(n),
{
    if n >= 0 {
        return integer_value(n as u64);
    }
    let size: u64 = if n == i64::MIN {
        9_223_372_036_854_775_808
    } else {
        (-n) as u64
    };
    let mut literal: String = String::new();
    literal.push('-');
    literal.append(text::decimal_text(size).as_str());
    proof {
        assert(literal@ =~= seq!['-'] + text::decimal((-n) as nat));
    }
    Json::Number(JsonNumber { unsigned: None, literal })
}

/// An array.
pub fn array_value(a: Vec<Json>) -> (r: Json)
    ensures
        r@ == JsonView::Array(views(a@)),
{
    let r: Json = Json::Array(a);
    proof {
        lemma_view_parts(r);
    }
    r
}

/// An object.
pub fn object_value(m: Vec<JsonMember>) -> (r: Json)
    ensures
        r@ == JsonView::Object(member_views(m@)),
{
    let r: Json = Json::Object(m);
    proof {
        lemma_view_parts(r);
    }
    r
}

/// Adds a member to an object that is being built.
pub fn add_member(m: &mut Vec<JsonMember>, key: &str, value: Json)
    ensures
        member_views(final(m)@) == member_views(old(m)@).push((key@, value@)),
{
    let ghost before: Seq<JsonMember> = m@;
    m.push(JsonMember { key: key.to_string(), value });
    proof {
        assert(member_views(m@) =~= member_views(before).push((key@, value@)));
    }
}

/// The members of a new object.
pub fn no_members() -> (r: Vec<JsonMember>)
    ensures
        member_views(r@) == Seq::<(Seq<char>, JsonView)>::empty(),
{
    let r: Vec<JsonMember> = Vec::new();
    proof {
        assert(member_views(r@) =~= Seq::empty());
    }
    r
}

/// Adds an element to an array that is being built.
pub fn add_element(a: &mut Vec<Json>, value: Json)
    ensures
        views(final(a)@) == views(old(a)@).push(value@),
{
    let ghost before: Seq<Json> = a@;
    a.push(value);
    proof {
        assert(views(a@) =~= views(before).push(value@));
    }
}

/// `m` with the member `key`, where `o` is a string.
pub open spec fn with_opt_text(
    m: Seq<(Seq<char>, JsonView)>,
    key: Seq<char>,
    o: Option<Seq<char>>,
) -> Seq<(Seq<char>, JsonView)> {
    match o {
        Some(s) => m.push((key, JsonView::Text(s))),
        None => m,
    }
}

/// `m` with the member `key`, where `o` is a value.
pub open spec fn with_opt(
    m: Seq<(Seq<char>, JsonView)>,
    key: Seq<char>,
    o: Option<JsonView>,
) -> Seq<(Seq<char>, JsonView)> {
    match o {
        Some(v) => m.push((key, v)),
        None => m,
    }
}

/// Adds a string member, if there is one.
pub fn add_opt_text(m: &mut Vec<JsonMember>, key: &str, o: &Option<String>)
    ensures
        member_views(final(m)@) == with_opt_text(
            member_views(old(m)@),
            key@,
            text::opt_text(*o),
        ),
{
    if let Some(s) = o {
        add_member(m, key, Json::Text(s.clone()));
    }
}

/// Adds a member, if there is one.
pub fn add_opt(m: &mut Vec<JsonMember>, key: &str, o: &Option<Json>)
    ensures
        member_views(final(m)@) == with_opt(member_views(old(m)@), key@, opt_view(*o)),
{
    if let Some(v) = o {
        add_member(m, key, v.clone());
    }
}

#[verifier::external_type_specification]
#[verifier::external_body]
pub struct ExValue(serde_json::Value);

/// What a `serde_json::Value` holds.
pub uninterp spec fn value_json(value: serde_json::Value) -> JsonView;

/// The value that a JSON text denotes, as `serde_json::from_str` reads it, or
/// `None` where the text is not JSON, or holds a number or a nesting that is beyond
/// what can be read. Of a key that an object has twice, the last value counts.
pub uninterp spec fn json_of_text(s: Seq<char>) -> Option<JsonView>;

/// Reads a JSON text with `serde_json::from_str`: what it returns depends on
/// the characters of the text alone, and `{}` is a JSON text.
#[verifier::external_body]
fn read_value(s: &str) -> (r: Option<serde_json::Value>)
    ensures
        match r {
            Some(v) => json_of_text(s@) == Some(value_json(v)),
            None => json_of_text(s@) is None,
        },
        s@ == "{}"@ ==> r is Some,
{
    serde_json::from_str::<serde_json::Value>(s).ok()
}

/// Takes a `serde_json::Value` apart, variant by variant. A number keeps what
/// `serde_json::Number::as_u64` and its `to_string` give.
#[verifier::external_body]
fn json_from_value(value: serde_json::Value) -> (r: Json)
    ensures
        r@ == value_json(value),
{
    match value {
        serde_json::Value::Null => Json::Null,
        serde_json::Value::Bool(b) => Json::Bool(b),
        serde_json::Value::Number(n) => Json::Number(
            JsonNumber { unsigned: n.as_u64(), literal: n.to_string() },
        ),
        serde_json::Value::String(s) => Json::Text(s),
        serde_json::Value::Array(a) => Json::Array(a.into_iter().map(json_from_value).collect()),
        serde_json::Value::Object(m) => Json::Object(
            m.into_iter().map(|(key, v)| JsonMember { key, value: json_from_value(v) }).collect(),
        ),
    }
}

/// The members of an object have keys of their own.
pub open spec fn distinct_keys(m: Seq<(Seq<char>, JsonView)>) -> bool {
    forall|i: int, k: int| 0 <= i < k < m.len() ==> #[trigger] m[i].0 != #[trigger] m[k].0
}

/// The text of a number with a fraction or an exponent.
pub open spec fn number_text(
    negative: bool,
    whole: nat,
    digits: Seq<char>,
    exponent: Option<(Seq<char>, nat)>,
) -> Seq<char> {
    (if negative {
        seq!['-']
    } else {
        Seq::empty()
    }) + text::decimal(whole) + (if digits.len() == 0 {
        Seq::empty()
    } else {
        seq!['.'] + digits
    }) + (match exponent {
        Some((sign, e)) => seq!['e'] + sign + text::decimal(e),
        None => Seq::empty(),
    })
}

/// The parts of a number are those of one with a fraction or an exponent that is
/// of a size that can be told: below a number of a hundred digits.
pub open spec fn is_moderate(
    whole: nat,
    digits: Seq<char>,
    exponent: Option<(Seq<char>, nat)>,
) -> bool {
    &&& digits.len() > 0 || exponent is Some
    &&& digits.len() <= 1000
    &&& forall|i: int| 0 <= i < digits.len() ==> '0' <= #[trigger] digits[i] <= '9'
    &&& text::decimal(whole).len() < 100
    &&& exponent matches Some((sign, e)) ==> {
        ||| sign == seq!['-'] && e <= 1000
        ||| (sign == seq!['+'] || sign.len() == 0) && text::decimal(whole).len() + e < 100
    }
}

/// `literal` is a number with a fraction or an exponent, see `is_moderate`.
pub open spec fn is_fraction(literal: Seq<char>) -> bool {
    exists|negative: bool, whole: nat, digits: Seq<char>, exponent: Option<(Seq<char>, nat)>|
        literal == #[trigger] number_text(negative, whole, digits, exponent) && is_moderate(
            whole,
            digits,
            exponent,
        )
}

/// `literal` is a negative integer that fits in 64 bits.
pub open spec fn is_negative(literal: Seq<char>) -> bool {
    exists|n: i64| n < 0 && #[trigger] signed_view(n) == JsonView::Number(None, literal)
}

/// The number is one that can be written: an integer in decimal digits, or one with
/// a fraction or an exponent.
pub open spec fn is_number(unsigned: Option<u64>, literal: Seq<char>) -> bool {
    match unsigned {
        Some(n) => literal == text::decimal(n as nat),
        None => is_negative(literal) || is_fraction(literal),
    }
}

/// `j` can be written and read back: its numbers are numbers, no object has a key
/// twice, and arrays and objects stand at most `depth` deep in each other.
pub open spec fn writable(j: JsonView, depth: nat) -> bool
    decreases j,
{
    match j {
        JsonView::Number(n, literal) => is_number(n, literal),
        JsonView::Array(a) => depth > 0 && (forall|i: int|
            0 <= i < a.len() ==> writable(#[trigger] a[i], (depth - 1) as nat)),
        JsonView::Object(m) => depth > 0 && distinct_keys(m) && (forall|i: int|
            0 <= i < m.len() ==> writable((#[trigger] m[i]).1, (depth - 1) as nat)),
        _ => true,
    }
}

/// The literal is that of an integer: it has no fraction and no exponent.
pub open spec fn is_whole(literal: Seq<char>) -> bool {
    forall|i: int|
        0 <= i < literal.len() ==> #[trigger] literal[i] != '.' && literal[i] != 'e' && literal[i]
            != 'E'
}

/// The two numbers are the same where they are integers; else neither is an
/// unsigned integer, and the second may differ from the first by rounding.
pub open spec fn same_number(
    a: (Option<u64>, Seq<char>),
    b: (Option<u64>, Seq<char>),
) -> bool {
    a.0 == b.0 && (is_whole(a.1) ==> a.1 == b.1)
}

/// The two values are the same, but for numbers that are not integers, see
/// `same_number`.
pub open spec fn same_value(a: JsonView, b: JsonView) -> bool
    decreases a,
{
    match a {
        JsonView::Number(n, literal) => b matches JsonView::Number(k, other) && same_number(
            (n, literal),
            (k, other),
        ),
        JsonView::Array(x) => b matches JsonView::Array(y) && x.len() == y.len() && (forall|i: int|
            0 <= i < x.len() ==> same_value(#[trigger] x[i], y[i])),
        JsonView::Object(x) => b matches JsonView::Object(y) && x.len() == y.len() && (forall|
            i: int,
        |
            0 <= i < x.len() ==> (#[trigger] x[i]).0 == y[i].0 && same_value(x[i].1, y[i].1)),
        _ => a == b,
    }
}

/// All numbers of `j` are integers.
pub open spec fn is_all_whole(j: JsonView) -> bool
    decreases j,
{
    match j {
        JsonView::Number(_, literal) => is_whole(literal),
        JsonView::Array(a) => forall|i: int| 0 <= i < a.len() ==> is_all_whole(#[trigger] a[i]),
        JsonView::Object(m) => forall|i: int|
            0 <= i < m.len() ==> is_all_whole((#[trigger] m[i]).1),
        _ => true,
    }
}

/// Values that are the same but for numbers that are not integers are the same
/// where all numbers are integers.
pub proof fn whole_values_are_the_same(a: JsonView, b: JsonView)
    requires
        is_all_whole(a),
        same_value(a, b),
    ensures
        a == b,
    decreases a,
{
    match a {
        JsonView::Array(x) => {
            let y = b->Array_0;
            assert forall|i: int| 0 <= i < x.len() implies x[i] == y[i] by {
                whole_values_are_the_same(x[i], y[i]);
            }
            assert(x =~= y);
        },
        JsonView::Object(x) => {
            let y = b->Object_0;
            assert forall|i: int| 0 <= i < x.len() implies x[i] == y[i] by {
                whole_values_are_the_same(x[i].1, y[i].1);
            }
            assert(x =~= y);
        },
        _ => {},
    }
}

proof fn lemma_same_value_chain(a: JsonView, b: JsonView, c: JsonView)
    requires
        same_value(a, b),
        same_value(b, c),
    ensures
        same_value(a, c),
    decreases a,
{
    match a {
        JsonView::Array(x) => {
            let y = b->Array_0;
            let z = c->Array_0;
            assert forall|i: int| 0 <= i < x.len() implies same_value(#[trigger] x[i], z[i]) by {
                assert(same_value(y[i], z[i]));
                lemma_same_value_chain(x[i], y[i], z[i]);
            }
        },
        JsonView::Object(x) => {
            let y = b->Object_0;
            let z = c->Object_0;
            assert forall|i: int| 0 <= i < x.len() implies (#[trigger] x[i]).0 == z[i].0
                && same_value(x[i].1, z[i].1) by {
                assert(y[i].0 == z[i].0);
                lemma_same_value_chain(x[i].1, y[i].1, z[i].1);
            }
        },
        _ => {},
    }
}

/// The members of the same objects under a key are the same.
pub proof fn lemma_same_members(
    a: Seq<(Seq<char>, JsonView)>,
    b: Seq<(Seq<char>, JsonView)>,
    key: Seq<char>,
)
    requires
        same_value(JsonView::Object(a), JsonView::Object(b)),
    ensures
        match lookup(a, key) {
            Some(v) => lookup(b, key) matches Some(w) && same_value(v, w),
            None => lookup(b, key) is None,
        },
    decreases a.len(),
{
    if a.len() > 0 {
        assert(a[0].0 == b[0].0);
        let x = a.drop_first();
        let y = b.drop_first();
        assert forall|i: int| 0 <= i < x.len() implies (#[trigger] x[i]).0 == y[i].0 && same_value(
            x[i].1,
            y[i].1,
        ) by {
            assert(x[i] == a[i + 1]);
            assert(y[i] == b[i + 1]);
        }
        lemma_same_members(x, y, key);
    }
}

/// The literal ends in an exponent of three digits, which is how the `to_string` of
/// `serde_json::Number` ends for a number of more than a hundred digits.
pub open spec fn is_huge(literal: Seq<char>) -> bool {
    literal.len() >= 4 && literal[literal.len() - 4] == '+'
}

/// What is written of `j` can be read: no number is huge, and arrays and objects
/// stand at most `depth` deep in each other.
pub open spec fn legible(j: JsonView, depth: nat) -> bool
    decreases j,
{
    match j {
        JsonView::Number(_, literal) => !is_huge(literal),
        JsonView::Array(a) => depth > 0 && (forall|i: int|
            0 <= i < a.len() ==> legible(#[trigger] a[i], (depth - 1) as nat)),
        JsonView::Object(m) => depth > 0 && (forall|i: int|
            0 <= i < m.len() ==> legible((#[trigger] m[i]).1, (depth - 1) as nat)),
        _ => true,
    }
}

/// How deep a JSON text may be nested for `serde_json::from_str` to read it.
pub const MAX_DEPTH: u64 = 127;

/// What the `serde_json::Value` that is built from a value holds.
pub uninterp spec fn stored(j: JsonView) -> JsonView;

/// The text of a value, as the `to_string` of `serde_json::Value` writes it.
pub uninterp spec fn written(j: JsonView) -> Seq<char>;

/// Builds a `serde_json::Value`, variant by variant; a number that is not an
/// unsigned integer is read from its literal by `serde_json::Number::from_str`.
/// What comes out depends on the value alone. A value that can be written is built
/// as it stands, but for the last digits of numbers that are not integers; none of
/// these becomes huge.
#[verifier::external_body]
fn value_from_json(j: &Json) -> (r: serde_json::Value)
    ensures
        value_json(r) == stored(j@),
        writable(j@, MAX_DEPTH as nat) ==> same_value(j@, value_json(r)),
        writable(j@, MAX_DEPTH as nat) ==> legible(value_json(r), MAX_DEPTH as nat),
{
    match j {
        Json::Null => serde_json::Value::Null,
        Json::Bool(b) => serde_json::Value::Bool(*b),
        Json::Number(JsonNumber { unsigned: Some(n), literal: _ }) => serde_json::Value::from(*n),
        Json::Number(n) => n.literal.parse::<serde_json::Number>().map_or(
            serde_json::Value::Null, serde_json::Value::Number),
        Json::Text(s) => serde_json::Value::String(s.clone()),
        Json::Array(a) => serde_json::Value::Array(a.iter().map(value_from_json).collect()),
        Json::Object(m) => serde_json::Value::Object(
            m.iter().map(|x| (x.key.clone(), value_from_json(&x.value))).collect(),
        ),
    }
}

/// `s` stands on one line, with no white space at either end.
pub open spec fn is_line(s: Seq<char>) -> bool {
    &&& s.len() > 0
    &&& !text::white_space(s[0])
    &&& !text::white_space(s.last())
    &&& forall|i: int| 0 <= i < s.len() ==> #[trigger] s[i] != '\n'
}

/// `s` is a text that is read as `j`, but for the last digits of numbers that are
/// not integers.
pub open spec fn is_text_of(s: Seq<char>, j: JsonView) -> bool {
    json_of_text(s) matches Some(k) && same_value(j, k)
}

/// Writes a value with the `to_string` of `serde_json::Value`: the text depends
/// on what the value holds alone, is on one line with no white space at either end,
/// and where it is legible, is read back by `serde_json::from_str` as the same value,
/// but for the last digits of numbers that are not integers.
#[verifier::external_body]
fn write_value(value: &serde_json::Value) -> (r: String)
    ensures
        r@ == written(value_json(*value)),
        legible(value_json(*value), MAX_DEPTH as nat) ==> is_text_of(r@, value_json(*value)),
        is_line(r@),
{
    value.to_string()
}

/// The text of a value, on one line. A value that can be written is read back, but
/// for the last digits of numbers that are not integers.
pub fn json_text(j: &Json) -> (r: String)
    ensures
        r@ == written(stored(j@)),
        writable(j@, MAX_DEPTH as nat) ==> is_text_of(r@, j@),
        writable(j@, MAX_DEPTH as nat) && is_all_whole(j@) ==> json_of_text(r@) == Some(j@),
        is_line(r@),
{
    let value: serde_json::Value = value_from_json(j);
    let r: String = write_value(&value);
    proof {
        if writable(j@, MAX_DEPTH as nat) {
            let k = json_of_text(r@)->0;
            lemma_same_value_chain(j@, value_json(value), k);
            if is_all_whole(j@) {
                whole_values_are_the_same(j@, k);
            }
        }
    }
    r
}

/// `s` is a JSON text. The empty object is one.
pub open spec fn is_json(s: Seq<char>) -> bool {
    s == "{}"@ || json_of_text(s) is Some
}

/// Whether `s` is a JSON text.
pub fn is_json_text(s: &str) -> (r: bool)
    ensures
        r == is_json(s@),
{
    parse_json(s).is_some()
}

/// The value of a JSON text, or `None` where the text is not JSON.
pub fn parse_json(s: &str) -> (r: Option<Json>)
    ensures
        opt_view(r) == json_of_text(s@),
        s@ == "{}"@ ==> r is Some,
{
    match read_value(s) {
        Some(v) => Some(json_from_value(v)),
        None => None,
    }
}

} // verus!
