//! JSON values as the telemetry logic reads them.
//!
//! `serde_json` reads texts; the values it hands out are turned, node by node,
//! into [`Json`], and everything else works on that type.

use crate::double::Double;
use crate::text;
use vstd::prelude::*;

verus! {

/// What a number that is no `i64` shows: its JSON text, the double nearest to
/// it, and the plain decimal text of that double.
#[derive(Debug, PartialEq)]
pub struct RealNumber {
    pub json: String,
    pub plain: String,
    pub double: Double,
}

/// A JSON number.
#[derive(Debug, PartialEq)]
pub enum JsonNumber {
    Int(i64),
    Real(RealNumber),
}

/// A JSON value. The entries of an object stand in the order of their names.
#[derive(Debug, PartialEq)]
pub enum Json {
    Null,
    Bool(bool),
    Number(JsonNumber),
    Text(String),
    Array(Vec<Json>),
    Object(Vec<(String, Json)>),
}

#[verifier::ext_equal]
pub struct RealView {
    pub json: Seq<char>,
    pub plain: Seq<char>,
    pub double: Double,
}

#[verifier::ext_equal]
pub enum NumberView {
    Int(i64),
    Real(RealView),
}

#[verifier::ext_equal]
pub enum JsonView {
    Null,
    Bool(bool),
    Number(NumberView),
    Text(Seq<char>),
    Array(Seq<JsonView>),
    Object(Seq<(Seq<char>, JsonView)>),
}

impl View for RealNumber {
    type V = RealView;

    open spec fn view(&self) -> RealView {
        RealView { json: self.json@, plain: self.plain@, double: self.double }
    }
}

impl View for JsonNumber {
    type V = NumberView;

    open spec fn view(&self) -> NumberView {
        match self {
            JsonNumber::Int(i) => NumberView::Int(*i),
            JsonNumber::Real(r) => NumberView::Real(r@),
        }
    }
}

/// The value that `j` stands for.
pub open spec fn json_view(j: Json) -> JsonView
    decreases j,
{
    match j {
        Json::Null => JsonView::Null,
        Json::Bool(b) => JsonView::Bool(b),
        Json::Number(n) => JsonView::Number(n@),
        Json::Text(s) => JsonView::Text(s@),
        Json::Array(a) => JsonView::Array(
            Seq::new(
                a@.len(),
                |i: int|
                    if 0 <= i < a@.len() {
                        json_view(a@[i])
                    } else {
                        JsonView::Null
                    },
            ),
        ),
        Json::Object(e) => JsonView::Object(
            Seq::new(
                e@.len(),
                |i: int|
                    if 0 <= i < e@.len() {
                        (e@[i].0@, json_view(e@[i].1))
                    } else {
                        (seq![], JsonView::Null)
                    },
            ),
        ),
    }
}

impl View for Json {
    type V = JsonView;

    open spec fn view(&self) -> JsonView {
        json_view(*self)
    }
}

/// The values that a list holds.
pub open spec fn values(list: Seq<Json>) -> Seq<JsonView> {
    list.map_values(|j: Json| j@)
}

/// The names and values that a list of entries holds.
pub open spec fn entries<T: View>(list: Seq<(String, T)>) -> Seq<(Seq<char>, T::V)> {
    list.map_values(|e: (String, T)| (e.0@, e.1@))
}

/// The view of an array is the views of its elements, and so for an object.
pub proof fn lemma_views(j: Json)
    ensures
        j matches Json::Array(a) ==> j@ == JsonView::Array(values(a@)),
        j matches Json::Object(e) ==> j@ == JsonView::Object(entries(e@)),
{
    match j {
        Json::Array(a) => {
            assert(j@->Array_0 =~= values(a@));
        },
        Json::Object(e) => {
            assert(j@->Object_0 =~= entries(e@));
        },
        _ => {},
    }
}

/// The value of the first entry named `name`.
pub open spec fn lookup<V>(list: Seq<(Seq<char>, V)>, name: Seq<char>) -> Option<V>
    decreases list.len(),
{
    if list.len() == 0 {
        None
    } else if list[0].0 == name {
        Some(list[0].1)
    } else {
        lookup(list.drop_first(), name)
    }
}

/// `list` with `value` under `name`, in the place that the order of names
/// gives it; a value that stood under the name before is replaced.
pub open spec fn put<V>(list: Seq<(Seq<char>, V)>, name: Seq<char>, value: V) -> Seq<
    (Seq<char>, V),
>
    decreases list.len(),
{
    if list.len() == 0 {
        seq![(name, value)]
    } else if list[0].0 == name {
        seq![(name, value)] + list.drop_first()
    } else if text::precedes(name, list[0].0) {
        seq![(name, value)] + list
    } else {
        seq![list[0]] + put(list.drop_first(), name, value)
    }
}

/// The names of `list` stand in ascending order, each once.
pub open spec fn ordered<V>(list: Seq<(Seq<char>, V)>) -> bool {
    forall|i: int, j: int| 0 <= i < j < list.len() ==> text::precedes(#[trigger] list[i].0, #[trigger] list[j].0)
}

/// Every object inside `j` has its names in ascending order, each once.
pub open spec fn well_ordered(j: JsonView) -> bool
    decreases j,
{
    match j {
        JsonView::Array(a) => forall|i: int| 0 <= i < a.len() ==> well_ordered(#[trigger] a[i]),
        JsonView::Object(e) => ordered(e) && forall|i: int|
            0 <= i < e.len() ==> well_ordered(#[trigger] e[i].1),
        _ => true,
    }
}

/// `s` is made of digits, minus signs and points.
pub open spec fn is_plain(s: Seq<char>) -> bool {
    forall|i: int|
        0 <= i < s.len() ==> text::is_digit(#[trigger] s[i]) || s[i] == '-' || s[i] == '.'
}

/// Every real number inside `j` has a plain decimal text, as those have that are
/// read.
pub open spec fn plainly_shown(j: JsonView) -> bool
    decreases j,
{
    match j {
        JsonView::Number(NumberView::Real(x)) => is_plain(x.plain),
        JsonView::Array(a) => forall|i: int| 0 <= i < a.len() ==> plainly_shown(#[trigger] a[i]),
        JsonView::Object(e) => forall|i: int|
            0 <= i < e.len() ==> plainly_shown(#[trigger] e[i].1),
        _ => true,
    }
}

impl JsonView {
    /// The member `name` of an object.
    pub open spec fn get(self, name: Seq<char>) -> Option<JsonView> {
        match self {
            JsonView::Object(e) => lookup(e, name),
            _ => None,
        }
    }

    /// The text of a string.
    pub open spec fn string(self) -> Option<Seq<char>> {
        match self {
            JsonView::Text(s) => Some(s),
            _ => None,
        }
    }

    /// The integer that a number is.
    pub open spec fn integer(self) -> Option<i64> {
        match self {
            JsonView::Number(NumberView::Int(i)) => Some(i),
            _ => None,
        }
    }

    /// The truth value of a boolean.
    pub open spec fn truth(self) -> Option<bool> {
        match self {
            JsonView::Bool(b) => Some(b),
            _ => None,
        }
    }
}

/// Two steps into nested objects.
pub open spec fn get2(j: JsonView, outer: Seq<char>, inner: Seq<char>) -> Option<JsonView> {
    match j.get(outer) {
        Some(o) => o.get(inner),
        None => None,
    }
}

impl Clone for RealNumber {
    fn clone(&self) -> (r: Self)
        ensures
            r@ == self@,
    {
        RealNumber { json: self.json.clone(), plain: self.plain.clone(), double: self.double }
    }
}

impl Clone for JsonNumber {
    fn clone(&self) -> (r: Self)
        ensures
            r@ == self@,
    {
        match self {
            JsonNumber::Int(i) => JsonNumber::Int(*i),
            JsonNumber::Real(x) => JsonNumber::Real(x.clone()),
        }
    }
}

impl Clone for Json {
    #[verifier::loop_isolation(false)]
    fn clone(&self) -> (r: Self)
        ensures
            r@ == self@,
        decreases self,
    {
        match self {
            Json::Null => Json::Null,
            Json::Bool(b) => Json::Bool(*b),
            Json::Number(n) => Json::Number(n.clone()),
            Json::Text(s) => Json::Text(s.clone()),
            Json::Array(a) => {
                let mut copy: Vec<Json> = Vec::new();
                for i in 0..a.len()
                    invariant
                        values(copy@) == values(a@).take(i as int),
                {
                    let item = a[i].clone();
                    copy.push(item);
                    assert(values(copy@) == values(a@).take(i + 1));
                }
                assert(values(copy@) == values(a@));
                let r = Json::Array(copy);
                proof {
                    lemma_views(*self);
                    lemma_views(r);
                }
                r
            },
            Json::Object(e) => {
                let mut copy: Vec<(String, Json)> = Vec::new();
                for i in 0..e.len()
                    invariant
                        entries(copy@) == entries(e@).take(i as int),
                {
                    let name = e[i].0.clone();
                    let item = e[i].1.clone();
                    copy.push((name, item));
                    assert(entries(copy@) == entries(e@).take(i + 1));
                }
                assert(entries(copy@) == entries(e@));
                let r = Json::Object(copy);
                proof {
                    lemma_views(*self);
                    lemma_views(r);
                }
                r
            },
        }
    }
}

/// The place of the first entry named `name`.
#[verifier::loop_isolation(false)]
fn place_of(list: &Vec<(String, Json)>, name: &str) -> (r: Option<usize>)
    ensures
        match r {
            Some(i) => i < list@.len() && lookup(entries(list@), name@) == Some(list@[i as int].1@),
            None => lookup(entries(list@), name@) is None,
        },
{
    let ghost all = entries(list@);
    assert(all.skip(0) == all);
    for i in 0..list.len()
        invariant
            lookup(all, name@) == lookup(all.skip(i as int), name@),
    {
        assert(all.skip(i as int)[0] == all[i as int]);
        if text::same(list[i].0.as_str(), name) {
            return Some(i);
        }
        assert(all.skip(i as int).drop_first() == all.skip(i + 1));
    }
    None
}

/// Puts `value` under `name`, keeping the order of names.
#[verifier::loop_isolation(false)]
pub fn put_entry<T: View>(list: &mut Vec<(String, T)>, name: String, value: T)
    ensures
        entries(final(list)@) == put(entries(old(list)@), name@, value@),
{
    let ghost all = entries(list@);
    assert(all.skip(0) == all);
    for i in 0..list.len()
        invariant
            list@ == old(list)@,
            put(all, name@, value@) == all.take(i as int) + put(all.skip(i as int), name@, value@),
    {
        assert(all.skip(i as int)[0] == all[i as int]);
        assert(all.skip(i as int).drop_first() == all.skip(i + 1));
        if text::same(list[i].0.as_str(), name.as_str()) {
            list.set(i, (name, value));
            assert(entries(list@) == all.take(i as int) + (seq![(name@, value@)] + all.skip(i + 1)));
            return ;
        }
        if text::before(name.as_str(), list[i].0.as_str()) {
            list.insert(i, (name, value));
            assert(entries(list@) == all.take(i as int) + (seq![(name@, value@)] + all.skip(i as int)));
            return ;
        }
        assert(all.take(i as int) + (seq![all[i as int]] + put(all.skip(i + 1), name@, value@))
            == all.take(i + 1) + put(all.skip(i + 1), name@, value@));
    }
    list.push((name, value));
    assert(entries(list@) == all.push((name@, value@)));
}

impl Json {
    /// The member `name` of an object.
    pub fn get(&self, name: &str) -> (r: Option<&Json>)
        ensures
            match r {
                Some(j) => self@.get(name@) == Some(j@),
                None => self@.get(name@) is None,
            },
    {
        proof {
            lemma_views(*self);
        }
        match self {
            Json::Object(e) => match place_of(e, name) {
                Some(i) => Some(&e[i].1),
                None => None,
            },
            _ => None,
        }
    }

    /// The text of a string.
    pub fn as_text(&self) -> (r: Option<&str>)
        ensures
            match r {
                Some(s) => self@.string() == Some(s@),
                None => self@.string() is None,
            },
    {
        match self {
            Json::Text(s) => Some(s.as_str()),
            _ => None,
        }
    }

    /// The integer that a number is.
    pub fn as_integer(&self) -> (r: Option<i64>)
        ensures
            r == self@.integer(),
    {
        match self {
            Json::Number(JsonNumber::Int(i)) => Some(*i),
            _ => None,
        }
    }

    /// The truth value of a boolean.
    pub fn as_truth(&self) -> (r: Option<bool>)
        ensures
            r == self@.truth(),
    {
        match self {
            Json::Bool(b) => Some(*b),
            _ => None,
        }
    }

    /// Whether the value is a number.
    pub fn is_number(&self) -> (r: bool)
        ensures
            r == self@ is Number,
    {
        match self {
            Json::Number(_) => true,
            _ => false,
        }
    }

    /// The member `inner` of the member `outer`.
    pub fn get2(&self, outer: &str, inner: &str) -> (r: Option<&Json>)
        ensures
            match r {
                Some(j) => get2(self@, outer@, inner@) == Some(j@),
                None => get2(self@, outer@, inner@) is None,
            },
    {
        match self.get(outer) {
            Some(o) => o.get(inner),
            None => None,
        }
    }
}

/// The length of the longest string inside `j`.
pub open spec fn longest(j: JsonView) -> nat
    decreases j, 0nat,
{
    match j {
        JsonView::Text(s) => s.len(),
        JsonView::Array(a) => longest_item(a, a.len()),
        JsonView::Object(e) => longest_member(e, e.len()),
        _ => 0,
    }
}

/// The length of the longest string inside the first `n` values of `a`.
pub open spec fn longest_item(a: Seq<JsonView>, n: nat) -> nat
    decreases a, n,
{
    if n == 0 || n > a.len() {
        0
    } else {
        vstd::math::max(longest_item(a, (n - 1) as nat) as int, longest(a[n - 1]) as int) as nat
    }
}

/// The length of the longest string inside the first `n` values of `e`.
pub open spec fn longest_member(e: Seq<(Seq<char>, JsonView)>, n: nat) -> nat
    decreases e, n,
{
    if n == 0 || n > e.len() {
        0
    } else {
        vstd::math::max(
            longest_member(e, (n - 1) as nat) as int,
            longest(e[n - 1].1) as int,
        ) as nat
    }
}

/// No string inside one of the first `n` items is longer than the longest
/// inside all of them.
pub proof fn lemma_longest_item(a: Seq<JsonView>, n: nat, i: int)
    requires
        0 <= i < n <= a.len(),
    ensures
        longest(a[i]) <= longest_item(a, n),
    decreases n,
{
    if i < n - 1 {
        lemma_longest_item(a, (n - 1) as nat, i);
    }
}

/// No string inside one of the first `n` members is longer than the longest
/// inside all of them.
pub proof fn lemma_longest_member(e: Seq<(Seq<char>, JsonView)>, n: nat, i: int)
    requires
        0 <= i < n <= e.len(),
    ensures
        longest(e[i].1) <= longest_member(e, n),
    decreases n,
{
    if i < n - 1 {
        lemma_longest_member(e, (n - 1) as nat, i);
    }
}

/// The hexadecimal digit `d`, in small letters.
pub open spec fn hex_digit(d: int) -> char {
    if d < 10 {
        (48 + d) as char
    } else {
        (87 + d) as char
    }
}

/// How `c` stands inside a JSON string.
pub open spec fn escaped(c: char) -> Seq<char> {
    if c == '"' {
        seq!['\\', '"']
    } else if c == '\\' {
        seq!['\\', '\\']
    } else if c == '\n' {
        seq!['\\', 'n']
    } else if c == '\r' {
        seq!['\\', 'r']
    } else if c == '\t' {
        seq!['\\', 't']
    } else if c == '\u{8}' {
        seq!['\\', 'b']
    } else if c == '\u{c}' {
        seq!['\\', 'f']
    } else if ' ' > c {
        seq!['\\', 'u', '0', '0', hex_digit(c as int / 16), hex_digit(c as int % 16)]
    } else {
        seq![c]
    }
}

/// `s` as a JSON string.
pub open spec fn quoted(s: Seq<char>) -> Seq<char> {
    seq!['"'] + text::replaced(s, |c: char| escaped(c)) + seq!['"']
}

/// The text of a number.
pub open spec fn number_text(n: NumberView) -> Seq<char> {
    match n {
        NumberView::Int(i) => text::int_text(i as int),
        NumberView::Real(r) => r.json,
    }
}

/// The compact JSON text of `j`.
pub open spec fn json_text(j: JsonView) -> Seq<char>
    decreases j, 0nat,
{
    match j {
        JsonView::Null => "null"@,
        JsonView::Bool(b) => if b {
            "true"@
        } else {
            "false"@
        },
        JsonView::Number(n) => number_text(n),
        JsonView::Text(s) => quoted(s),
        JsonView::Array(a) => "["@ + text::join(item_texts(a, a.len()), ","@) + "]"@,
        JsonView::Object(e) => "{"@ + text::join(member_texts(e, e.len()), ","@) + "}"@,
    }
}

/// The JSON texts of the first `n` values of `a`.
pub open spec fn item_texts(a: Seq<JsonView>, n: nat) -> Seq<Seq<char>>
    decreases a, n,
{
    if n == 0 || n > a.len() {
        seq![]
    } else {
        item_texts(a, (n - 1) as nat).push(json_text(a[n - 1]))
    }
}

/// The JSON texts of the first `n` members of `e`, each behind its name.
pub open spec fn member_texts(e: Seq<(Seq<char>, JsonView)>, n: nat) -> Seq<Seq<char>>
    decreases e, n,
{
    if n == 0 || n > e.len() {
        seq![]
    } else {
        member_texts(e, (n - 1) as nat).push(quoted(e[n - 1].0) + ":"@ + json_text(e[n - 1].1))
    }
}

#[verifier::external_type_specification]
#[verifier::external_body]
pub struct ExValue(serde_json::Value);

#[verifier::external_type_specification]
#[verifier::external_body]
pub struct ExNumber(serde_json::Number);

/// What a `serde_json::Value` holds.
pub uninterp spec fn value_view(v: serde_json::Value) -> JsonView;

/// What a `serde_json::Number` holds.
pub uninterp spec fn number_view(n: serde_json::Number) -> NumberView;

/// What `serde_json` reads from a text, `None` where the text is no JSON.
pub uninterp spec fn json_of_text(t: Seq<char>) -> Option<JsonView>;

/// What `serde_json` reads from bytes, `None` where they are no JSON.
pub uninterp spec fn json_of_bytes(b: Seq<u8>) -> Option<JsonView>;

/// One layer of a `serde_json::Value`.
enum Node<'a> {
    Null,
    Bool(bool),
    Number(&'a serde_json::Number),
    Text(&'a String),
    Array(&'a Vec<serde_json::Value>),
    Object(Vec<(&'a String, &'a serde_json::Value)>),
}

/// Takes one layer off a `serde_json::Value`, by its variants and, for an
/// object, `serde_json::Map::iter`, which walks the entries.
#[verifier::external_body]
fn peel(v: &serde_json::Value) -> (r: Node<'_>)
    ensures
        match r {
            Node::Null => value_view(*v) == JsonView::Null,
            Node::Bool(b) => value_view(*v) == JsonView::Bool(b),
            Node::Number(n) => value_view(*v) == JsonView::Number(number_view(*n)),
            Node::Text(s) => value_view(*v) == JsonView::Text(s@),
            Node::Array(a) => value_view(*v) == JsonView::Array(
                a@.map_values(|x: serde_json::Value| value_view(x)),
            ),
            Node::Object(e) => value_view(*v) == JsonView::Object(
                e@.map_values(|x: (&String, &serde_json::Value)| (x.0@, value_view(*x.1))),
            ),
        },
{
    match v {
        serde_json::Value::Null => Node::Null,
        serde_json::Value::Bool(b) => Node::Bool(*b),
        serde_json::Value::Number(n) => Node::Number(n),
        serde_json::Value::String(s) => Node::Text(s),
        serde_json::Value::Array(a) => Node::Array(a),
        serde_json::Value::Object(m) => Node::Object(m.iter().collect()),
    }
}

/// The integer that a number is, by `serde_json::Number::as_i64`.
#[verifier::external_body]
fn number_integer(n: &serde_json::Number) -> (r: Option<i64>)
    ensures
        match number_view(*n) {
            NumberView::Int(i) => r == Some(i),
            NumberView::Real(_) => r is None,
        },
{
    n.as_i64()
}

/// The JSON text of a number, by its `Display`.
#[verifier::external_body]
fn number_json(n: &serde_json::Number) -> (r: String)
    ensures
        r@ == number_text(number_view(*n)),
{
    n.to_string()
}

/// The plain decimal text of the double that `serde_json::Number::as_f64`
/// gives, by its `Display`. That is `Some` for every number, and a double that is
/// finite, as every number of JSON is, is written without an exponent.
#[verifier::external_body]
fn number_plain(n: &serde_json::Number) -> (r: Option<String>)
    ensures
        r is Some,
        number_view(*n) matches NumberView::Real(x) ==> r->0@ == x.plain,
        is_plain(r->0@),
{
    n.as_f64().map(|x| format!("{}", x))
}

/// The double that `serde_json::Number::as_f64` gives, which is `Some` for every
/// number, by its bits.
#[verifier::external_body]
fn number_double(n: &serde_json::Number) -> (r: Option<Double>)
    ensures
        r is Some,
        number_view(*n) matches NumberView::Real(x) ==> r->0 == x.double,
{
    n.as_f64().map(|x| Double { bits: x.to_bits() })
}

/// Reads a text as JSON, by `serde_json::from_str`. A string inside what was
/// read has fewer characters than the text, which holds its quotes too, and
/// the names in an object ascend, as its map keeps them.
#[verifier::external_body]
fn value_of_text(t: &str) -> (r: Option<serde_json::Value>)
    ensures
        match r {
            Some(v) => json_of_text(t@) == Some(value_view(v)) && longest(value_view(v)) < t@.len()
                && well_ordered(value_view(v)),
            None => json_of_text(t@) is None,
        },
{
    serde_json::from_str(t).ok()
}

/// Reads bytes as JSON, by `serde_json::from_slice`. The names in an object
/// ascend, as its map keeps them.
#[verifier::external_body]
fn value_of_bytes(b: &[u8]) -> (r: Option<serde_json::Value>)
    ensures
        match r {
            Some(v) => json_of_bytes(b@) == Some(value_view(v)) && well_ordered(value_view(v)),
            None => json_of_bytes(b@) is None,
        },
{
    serde_json::from_slice(b).ok()
}

/// Writes a text as a JSON string, by `serde_json::to_string`, which fails on
/// no text.
#[verifier::external_body]
fn quote(s: &str) -> (r: String)
    ensures
        r@ == quoted(s@),
{
    serde_json::to_string(s).unwrap_or_default()
}

/// What a number of `serde_json` holds.
pub fn read_number(n: &serde_json::Number) -> (r: JsonNumber)
    ensures
        r@ == number_view(*n),
        plainly_shown(JsonView::Number(r@)),
{
    match number_integer(n) {
        Some(i) => JsonNumber::Int(i),
        None => JsonNumber::Real(
            RealNumber {
                json: number_json(n),
                plain: number_plain(n).unwrap(),
                double: number_double(n).unwrap(),
            },
        ),
    }
}

/// What a value of `serde_json` holds.
#[verifier::loop_isolation(false)]
pub fn read_value(v: &serde_json::Value) -> (r: Json)
    ensures
        r@ == value_view(*v),
        plainly_shown(r@),
    decreases value_view(*v),
{
    match peel(v) {
        Node::Null => Json::Null,
        Node::Bool(b) => Json::Bool(b),
        Node::Number(n) => Json::Number(read_number(n)),
        Node::Text(s) => Json::Text(s.clone()),
        Node::Array(a) => {
            let ghost all = a@.map_values(|x: serde_json::Value| value_view(x));
            let mut list: Vec<Json> = Vec::new();
            for i in 0..a.len()
                invariant
                    values(list@) == all.take(i as int),
                    forall|k: int| 0 <= k < i ==> plainly_shown(#[trigger] all[k]),
            {
                assert(all[i as int] == value_view(a@[i as int]));
                assert(value_view(*v)->Array_0 == all);
                assert(decreases_to!(value_view(*v) => value_view(*v)->Array_0));
                assert(decreases_to!(all => all[i as int]));
                let item = read_value(&a[i]);
                list.push(item);
                assert(values(list@) == all.take(i + 1));
            }
            assert(values(list@) == all);
            let r = Json::Array(list);
            proof {
                lemma_views(r);
            }
            r
        },
        Node::Object(e) => {
            let ghost all = e@.map_values(
                |x: (&String, &serde_json::Value)| (x.0@, value_view(*x.1)),
            );
            let mut list: Vec<(String, Json)> = Vec::new();
            for i in 0..e.len()
                invariant
                    entries(list@) == all.take(i as int),
                    forall|k: int| 0 <= k < i ==> plainly_shown(#[trigger] all[k].1),
            {
                assert(all[i as int] == (e@[i as int].0@, value_view(*e@[i as int].1)));
                assert(value_view(*v)->Object_0 == all);
                assert(decreases_to!(value_view(*v) => value_view(*v)->Object_0));
                assert(decreases_to!(all => all[i as int]));
                assert(decreases_to!(all[i as int] => all[i as int].1));
                let name = e[i].0.clone();
                let item = read_value(e[i].1);
                list.push((name, item));
                assert(entries(list@) == all.take(i + 1));
            }
            assert(entries(list@) == all);
            let r = Json::Object(list);
            proof {
                lemma_views(r);
            }
            r
        },
    }
}

/// Reads a text as JSON.
pub fn parse_text(t: &str) -> (r: Option<Json>)
    ensures
        match r {
            Some(j) => json_of_text(t@) == Some(j@) && longest(j@) < t@.len() && well_ordered(j@)
                && plainly_shown(j@),
            None => json_of_text(t@) is None,
        },
{
    match value_of_text(t) {
        Some(v) => Some(read_value(&v)),
        None => None,
    }
}

/// Reads bytes as JSON.
pub fn parse_bytes(b: &[u8]) -> (r: Option<Json>)
    ensures
        match r {
            Some(j) => json_of_bytes(b@) == Some(j@) && well_ordered(j@) && plainly_shown(j@),
            None => json_of_bytes(b@) is None,
        },
{
    match value_of_bytes(b) {
        Some(v) => Some(read_value(&v)),
        None => None,
    }
}

impl Json {
    /// The compact JSON text of the value.
    #[verifier::loop_isolation(false)]
    pub fn to_text(&self) -> (r: String)
        ensures
            r@ == json_text(self@),
        decreases self,
    {
        proof {
            lemma_views(*self);
        }
        match self {
            Json::Null => String::from_str("null"),
            Json::Bool(b) => if *b {
                String::from_str("true")
            } else {
                String::from_str("false")
            },
            Json::Number(JsonNumber::Int(i)) => text::int_to_text(*i),
            Json::Number(JsonNumber::Real(x)) => x.json.clone(),
            Json::Text(s) => quote(s.as_str()),
            Json::Array(a) => {
                let ghost all = values(a@);
                let mut list: Vec<String> = Vec::new();
                for i in 0..a.len()
                    invariant
                        text::texts(list@) == item_texts(all, i as nat),
                {
                    let ghost before = text::texts(list@);
                    let part = a[i].to_text();
                    list.push(part);
                    assert(all[i as int] == a@[i as int]@);
                    assert(text::texts(list@) == before.push(part@));
                }
                let mut r = String::from_str("[");
                r.append(text::joined(&list, ",").as_str());
                r.append("]");
                r
            },
            Json::Object(e) => {
                let ghost all = entries(e@);
                let mut list: Vec<String> = Vec::new();
                for i in 0..e.len()
                    invariant
                        text::texts(list@) == member_texts(all, i as nat),
                {
                    let ghost before = text::texts(list@);
                    let mut part = quote(e[i].0.as_str());
                    part.append(":");
                    part.append(e[i].1.to_text().as_str());
                    list.push(part);
                    assert(all[i as int] == (e@[i as int].0@, e@[i as int].1@));
                    assert(text::texts(list@) == before.push(part@));
                }
                let mut r = String::from_str("{");
                r.append(text::joined(&list, ",").as_str());
                r.append("}");
                r
            },
        }
    }
}

/// What the double nearest to `i` shows as a JSON number.
pub uninterp spec fn double_of(i: i64) -> RealView;

/// `i` is no further from zero than 2 to the 53rd: a double holds it exactly.
pub open spec fn held_exactly(i: i64) -> bool {
    -0x20_0000_0000_0000 <= i <= 0x20_0000_0000_0000
}

/// The double nearest to an integer, as a number, by
/// `serde_json::Number::as_f64` and `serde_json::Number::from_f64`. The plain
/// text of a double that is an integer, up to 2 to the 53rd, is that integer's.
#[verifier::external_body]
fn double_number(i: i64) -> (r: Option<serde_json::Number>)
    ensures
        r is Some,
        number_view(r->0) == NumberView::Real(double_of(i)),
        held_exactly(i) ==> number_view(r->0)->Real_0.plain == text::int_text(i as int),
        held_exactly(i) ==> number_view(r->0)->Real_0.double.rounded() == i,
{
    serde_json::Number::from(i).as_f64().and_then(serde_json::Number::from_f64)
}

/// What `n` shows when it is held as a double.
pub open spec fn as_double_view(n: NumberView) -> RealView {
    match n {
        NumberView::Int(i) => double_of(i),
        NumberView::Real(x) => x,
    }
}

impl JsonNumber {
    /// The number held as a double. Integers up to 2 to the 53rd keep their
    /// digits.
    pub fn as_double(&self) -> (r: RealNumber)
        ensures
            r@ == as_double_view(self@),
            plainly_shown(JsonView::Number(self@)) ==> is_plain(r.plain@),
            self@ matches NumberView::Int(i) ==> held_exactly(i) ==> r.plain@ == text::int_text(i as int)
                && r.double.rounded() == i,
    {
        match self {
            JsonNumber::Int(i) => {
                let n = double_number(*i).unwrap();
                match read_number(&n) {
                    JsonNumber::Real(x) => x,
                    JsonNumber::Int(_) => RealNumber {
                        json: String::new(),
                        plain: String::new(),
                        double: Double { bits: 0 },
                    },
                }
            },
            JsonNumber::Real(x) => x.clone(),
        }
    }
}

/// A value that was put under a name is found there, and what stands under
/// other names stays.
pub proof fn law_put_then_lookup<V>(
    list: Seq<(Seq<char>, V)>,
    name: Seq<char>,
    value: V,
    other: Seq<char>,
)
    ensures
        lookup(put(list, name, value), name) == Some(value),
        other != name ==> lookup(put(list, name, value), other) == lookup(list, other),
    decreases list.len(),
{
    let after = put(list, name, value);
    if list.len() > 0 {
        assert((seq![(name, value)] + list.drop_first()).drop_first() == list.drop_first());
        assert((seq![(name, value)] + list).drop_first() == list);
        if list[0].0 != name && !text::precedes(name, list[0].0) {
            law_put_then_lookup(list.drop_first(), name, value, other);
            assert(after.drop_first() == put(list.drop_first(), name, value));
        }
    } else {
        assert(after.drop_first() == list);
    }
}

/// Every entry after putting is the one that was put or was there before.
pub proof fn lemma_put_values<V>(list: Seq<(Seq<char>, V)>, name: Seq<char>, value: V)
    ensures
        forall|i: int|
            0 <= i < put(list, name, value).len() ==> #[trigger] put(list, name, value)[i] == (name, value)
                || exists|j: int| 0 <= j < list.len() && #[trigger] list[j] == put(list, name, value)[i],
    decreases list.len(),
{
    let after = put(list, name, value);
    if list.len() > 0 {
        let rest = list.drop_first();
        if list[0].0 == name {
            assert(forall|i: int| 0 < i < after.len() ==> after[i] == list[i]);
        } else if text::precedes(name, list[0].0) {
            assert(forall|i: int| 0 < i < after.len() ==> after[i] == list[i - 1]);
        } else {
            lemma_put_values(rest, name, value);
            let tail = put(rest, name, value);
            assert forall|i: int| 0 <= i < after.len() implies #[trigger] after[i] == (name, value) || exists|j: int|
                0 <= j < list.len() && #[trigger] list[j] == after[i] by {
                if i == 0 {
                    assert(list[0] == after[i]);
                } else if after[i] != (name, value) {
                    assert(after[i] == tail[i - 1]);
                    let k = choose|k: int| 0 <= k < rest.len() && #[trigger] rest[k] == tail[i - 1];
                    assert(list[k + 1] == after[i]);
                }
            }
        }
    }
}

/// Every name after putting is the name that was put or was there before.
pub proof fn lemma_put_names<V>(list: Seq<(Seq<char>, V)>, name: Seq<char>, value: V)
    ensures
        forall|i: int|
            0 <= i < put(list, name, value).len() ==> (#[trigger] put(list, name, value)[i]).0 == name
                || exists|j: int| 0 <= j < list.len() && (#[trigger] list[j]).0 == put(list, name, value)[i].0,
{
    lemma_put_values(list, name, value);
    let after = put(list, name, value);
    assert forall|i: int| 0 <= i < after.len() implies (#[trigger] after[i]).0 == name || exists|j: int|
        0 <= j < list.len() && (#[trigger] list[j]).0 == after[i].0 by {
        if after[i] != (name, value) {
            let j = choose|j: int| 0 <= j < list.len() && #[trigger] list[j] == after[i];
            assert(list[j].0 == after[i].0);
        }
    }
}

/// Putting keeps the names in ascending order, each once.
pub proof fn law_put_keeps_order<V>(list: Seq<(Seq<char>, V)>, name: Seq<char>, value: V)
    requires
        ordered(list),
    ensures
        ordered(put(list, name, value)),
    decreases list.len(),
{
    let after = put(list, name, value);
    if list.len() > 0 {
        let rest = list.drop_first();
        assert(forall|i: int| 0 <= i < rest.len() ==> rest[i] == list[i + 1]);
        if list[0].0 == name {
            assert(forall|i: int| 0 < i < after.len() ==> after[i] == list[i]);
        } else if text::precedes(name, list[0].0) {
            assert forall|j: int| 0 < j < after.len() implies text::precedes(name, #[trigger] after[j].0) by {
                assert(after[j] == list[j - 1]);
                if j > 1 {
                    text::lemma_precedes_transitive(name, list[0].0, list[j - 1].0);
                }
            }
            assert(forall|i: int| 0 < i < after.len() ==> after[i] == list[i - 1]);
        } else {
            law_put_keeps_order(rest, name, value);
            lemma_put_names(rest, name, value);
            let tail = put(rest, name, value);
            assert(forall|i: int| 0 < i < after.len() ==> after[i] == tail[i - 1]);
            text::lemma_precedes_total(name, list[0].0);
            assert forall|j: int| 0 < j < after.len() implies text::precedes(
                list[0].0,
                #[trigger] after[j].0,
            ) by {
                assert(after[j] == tail[j - 1]);
                if tail[j - 1].0 != name {
                    let k = choose|k: int| 0 <= k < rest.len() && (#[trigger] rest[k]).0 == tail[j - 1].0;
                    assert(list[k + 1] == rest[k]);
                }
            }
        }
    }
}

/// A name that no entry has is not found.
pub proof fn lemma_lookup_absent<V>(list: Seq<(Seq<char>, V)>, name: Seq<char>)
    requires
        forall|i: int| 0 <= i < list.len() ==> (#[trigger] list[i]).0 != name,
    ensures
        lookup(list, name) is None,
    decreases list.len(),
{
    if list.len() > 0 {
        assert forall|i: int| 0 <= i < list.drop_first().len() implies (
        #[trigger] list.drop_first()[i]).0 != name by {
            assert(list.drop_first()[i] == list[i + 1]);
        }
        lemma_lookup_absent(list.drop_first(), name);
    }
}

/// Finding a name: among all entries but the last, or else in the last.
pub proof fn lemma_lookup_last<V>(list: Seq<(Seq<char>, V)>, name: Seq<char>)
    requires
        list.len() > 0,
    ensures
        lookup(list, name) == (match lookup(list.drop_last(), name) {
            Some(v) => Some(v),
            None => if list.last().0 == name {
                Some(list.last().1)
            } else {
                None
            },
        }),
    decreases list.len(),
{
    if list.len() > 1 && list[0].0 != name {
        lemma_lookup_last(list.drop_first(), name);
        assert(list.drop_first().drop_last() == list.drop_last().drop_first());
    } else if list.len() == 1 {
        assert(lookup(list.drop_first(), name) is None);
    }
}

/// What is found under a name is the value of the first entry that has it;
/// nothing is found exactly where no entry has it.
pub proof fn law_lookup<V>(list: Seq<(Seq<char>, V)>, name: Seq<char>)
    ensures
        match lookup(list, name) {
            Some(v) => exists|i: int|
                0 <= i < list.len() && #[trigger] list[i] == (name, v) && forall|j: int|
                    0 <= j < i ==> (#[trigger] list[j]).0 != name,
            None => forall|i: int| 0 <= i < list.len() ==> (#[trigger] list[i]).0 != name,
        },
    decreases list.len(),
{
    if list.len() > 0 {
        let rest = list.drop_first();
        if list[0].0 == name {
            assert(list[0] == (name, list[0].1));
        } else {
            law_lookup(rest, name);
            match lookup(rest, name) {
                Some(v) => {
                    let i = choose|i: int|
                        0 <= i < rest.len() && #[trigger] rest[i] == (name, v) && forall|j: int|
                            0 <= j < i ==> (#[trigger] rest[j]).0 != name;
                    assert(list[i + 1] == (name, v));
                    assert forall|j: int| 0 <= j < i + 1 implies (#[trigger] list[j]).0 != name by {
                        if j > 0 {
                            assert(rest[j - 1] == list[j]);
                        }
                    }
                },
                None => {
                    assert forall|i: int| 0 <= i < list.len() implies (#[trigger] list[i]).0 != name by {
                        if i > 0 {
                            assert(rest[i - 1] == list[i]);
                        }
                    }
                },
            }
        }
    }
}

/// An entry whose name no earlier one has is what is found under it.
pub proof fn lemma_lookup_at<V>(list: Seq<(Seq<char>, V)>, i: int)
    requires
        0 <= i < list.len(),
        forall|j: int| 0 <= j < i ==> (#[trigger] list[j]).0 != list[i].0,
    ensures
        lookup(list, list[i].0) == Some(list[i].1),
{
    law_lookup(list, list[i].0);
    match lookup(list, list[i].0) {
        Some(v) => {
            let k = choose|k: int|
                0 <= k < list.len() && #[trigger] list[k] == (list[i].0, v) && forall|j: int|
                    0 <= j < k ==> (#[trigger] list[j]).0 != list[i].0;
            if k < i {
                assert(list[k].0 != list[i].0);
            }
            if i < k {
                assert(list[i].0 != list[i].0);
            }
        },
        None => {
            assert(list[i].0 != list[i].0);
        },
    }
}

/// In entries whose names ascend, every entry is what is found under its name.
pub proof fn law_ordered_lookup<V>(list: Seq<(Seq<char>, V)>, i: int)
    requires
        ordered(list),
        0 <= i < list.len(),
    ensures
        lookup(list, list[i].0) == Some(list[i].1),
{
    assert forall|j: int| 0 <= j < i implies (#[trigger] list[j]).0 != list[i].0 by {
        text::lemma_precedes_total(list[j].0, list[i].0);
    }
    lemma_lookup_at(list, i);
}

/// The compact text of an array is the texts of its items between brackets, and
/// that of an object the quoted names and the texts of its members between
/// braces, with commas between and no space.
pub proof fn law_json_text(a: Seq<JsonView>, e: Seq<(Seq<char>, JsonView)>)
    ensures
        json_text(JsonView::Array(a)) == seq!['['] + text::join(
            Seq::new(a.len(), |i: int| json_text(a[i])),
            seq![','],
        ) + seq![']'],
        json_text(JsonView::Object(e)) == seq!['{'] + text::join(
            Seq::new(e.len(), |i: int| quoted(e[i].0) + seq![':'] + json_text(e[i].1)),
            seq![','],
        ) + seq!['}'],
{
    reveal_strlit("[");
    reveal_strlit("]");
    reveal_strlit("{");
    reveal_strlit("}");
    reveal_strlit(",");
    reveal_strlit(":");
    assert("["@ == seq!['['] && "]"@ == seq![']'] && "{"@ == seq!['{'] && "}"@ == seq!['}'] && ","@
        == seq![','] && ":"@ == seq![':']);
    lemma_item_texts(a, a.len());
    lemma_member_texts(e, e.len());
    assert(item_texts(a, a.len()) =~= Seq::new(a.len(), |i: int| json_text(a[i])));
    assert(member_texts(e, e.len()) =~= Seq::new(
        e.len(),
        |i: int| quoted(e[i].0) + seq![':'] + json_text(e[i].1),
    ));
}

proof fn lemma_item_texts(a: Seq<JsonView>, n: nat)
    requires
        n <= a.len(),
    ensures
        item_texts(a, n).len() == n,
        forall|i: int| 0 <= i < n ==> #[trigger] item_texts(a, n)[i] == json_text(a[i]),
    decreases n,
{
    if n > 0 {
        lemma_item_texts(a, (n - 1) as nat);
    }
}

proof fn lemma_member_texts(e: Seq<(Seq<char>, JsonView)>, n: nat)
    requires
        n <= e.len(),
    ensures
        member_texts(e, n).len() == n,
        forall|i: int|
            0 <= i < n ==> #[trigger] member_texts(e, n)[i] == quoted(e[i].0) + ":"@ + json_text(
                e[i].1,
            ),
    decreases n,
{
    if n > 0 {
        lemma_member_texts(e, (n - 1) as nat);
    }
}

/// The compact texts of what holds nothing else.
pub proof fn law_simple_json_text(b: bool, i: i64, x: RealView)
    ensures
        json_text(JsonView::Null) == seq!['n', 'u', 'l', 'l'],
        json_text(JsonView::Bool(true)) == seq!['t', 'r', 'u', 'e'],
        json_text(JsonView::Bool(false)) == seq!['f', 'a', 'l', 's', 'e'],
        json_text(JsonView::Number(NumberView::Int(i))) == text::int_text(i as int),
        json_text(JsonView::Number(NumberView::Real(x))) == x.json,
{
    reveal_strlit("null");
    reveal_strlit("true");
    reveal_strlit("false");
}

/// A member of an object is what is found under its name; two steps are one
/// after the other; what is no object has no member.
pub proof fn law_get(j: JsonView, outer: Seq<char>, inner: Seq<char>)
    ensures
        match j {
            JsonView::Object(e) => j.get(outer) == lookup(e, outer),
            _ => j.get(outer) is None,
        },
        j.get(outer) matches Some(o) ==> get2(j, outer, inner) == o.get(inner),
        j.get(outer) is None ==> get2(j, outer, inner) is None,
{
}

/// A real number is held as a double as it is, and an integer as what it is as
/// a double.
pub proof fn law_as_double(i: i64, x: RealView)
    ensures
        as_double_view(NumberView::Real(x)) == x,
        as_double_view(NumberView::Int(i)) == double_of(i),
{
}

/// A value is shown as what it is.
pub proof fn law_json_view(b: bool, i: i64, x: RealNumber, s: String, a: Vec<Json>, e: Vec<
    (String, Json),
>)
    ensures
        Json::Null@ == JsonView::Null,
        Json::Bool(b)@ == JsonView::Bool(b),
        Json::Number(JsonNumber::Int(i))@ == JsonView::Number(NumberView::Int(i)),
        Json::Number(JsonNumber::Real(x))@ == JsonView::Number(
            NumberView::Real(RealView { json: x.json@, plain: x.plain@, double: x.double }),
        ),
        Json::Text(s)@ == JsonView::Text(s@),
        Json::Array(a)@ == JsonView::Array(Seq::new(a@.len(), |k: int| a@[k]@)),
        Json::Object(e)@ == JsonView::Object(Seq::new(e@.len(), |k: int| (e@[k].0@, e@[k].1@))),
{
    lemma_views(Json::Array(a));
    lemma_views(Json::Object(e));
    assert(values(a@) =~= Seq::new(a@.len(), |k: int| a@[k]@));
    assert(entries(e@) =~= Seq::new(e@.len(), |k: int| (e@[k].0@, e@[k].1@)));
}

/// The values of a list, and the names and values of entries, are those of its
/// items in their places.
pub proof fn law_lists_view(a: Seq<Json>, e: Seq<(String, Json)>, i: int)
    ensures
        values(a).len() == a.len(),
        0 <= i < a.len() ==> values(a)[i] == a[i]@,
        entries(e).len() == e.len(),
        0 <= i < e.len() ==> entries(e)[i] == (e[i].0@, e[i].1@),
{
}

}
