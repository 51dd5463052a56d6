//! JSON values: a tree with its mathematical model, lookups, updates, reading and printing.
use serde_json::Value;
use vstd::prelude::*;
use crate::{digits, floats, text};
use crate::text::{chars_of, same};

verus! {

broadcast use vstd::string::group_string_axioms;

/// A JSON number. A number with a fraction or an exponent is held as its IEEE 754 double bits.
pub enum Num {
    PosInt(u64),
    NegInt(i64),
    Float(u64),
}

/// A JSON value. The fields of an object stand in ascending order of their keys.
pub enum Json {
    Null,
    Bool(bool),
    Number(Num),
    Str(String),
    Array(Vec<Json>),
    Object(Vec<(String, Json)>),
}

/// The model of a number.
pub enum NumV {
    Pos(u64),
    Neg(i64),
    Flt(u64),
}

/// The model of a value.
pub enum JsonV {
    Null,
    Bool(bool),
    Num(NumV),
    Str(Seq<char>),
    Arr(Seq<JsonV>),
    Obj(Seq<(Seq<char>, JsonV)>),
}

impl View for Num {
    type V = NumV;

    open spec fn view(&self) -> NumV {
        match *self {
            Num::PosInt(u) => NumV::Pos(u),
            Num::NegInt(i) => NumV::Neg(i),
            Num::Float(b) => NumV::Flt(b),
        }
    }
}

/// The model of a value.
pub open spec fn json_view(v: Json) -> JsonV
    decreases v,
{
    match v {
        Json::Null => JsonV::Null,
        Json::Bool(b) => JsonV::Bool(b),
        Json::Number(n) => JsonV::Num(n@),
        Json::Str(s) => JsonV::Str(s@),
        Json::Array(a) => JsonV::Arr(
            Seq::new(
                a@.len(),
                |i: int|
                    if 0 <= i < a@.len() {
                        json_view(a@[i])
                    } else {
                        JsonV::Null
                    },
            ),
        ),
        Json::Object(o) => JsonV::Obj(
            Seq::new(
                o@.len(),
                |i: int|
                    if 0 <= i < o@.len() {
                        (o@[i].0@, json_view(o@[i].1))
                    } else {
                        (Seq::empty(), JsonV::Null)
                    },
            ),
        ),
    }
}

impl View for Json {
    type V = JsonV;

    open spec fn view(&self) -> JsonV {
        json_view(*self)
    }
}

/// The models of a list of values.
pub open spec fn items(a: Seq<Json>) -> Seq<JsonV> {
    a.map_values(|x: Json| x@)
}

/// The models of a list of fields.
pub open spec fn fields(o: Seq<(String, Json)>) -> Seq<(Seq<char>, JsonV)> {
    o.map_values(|p: (String, Json)| (p.0@, p.1@))
}

/// The model of an array or an object is that of its parts.
pub broadcast proof fn lemma_view_parts(v: Json)
    ensures
        (#[trigger] v@) == match v {
            Json::Array(a) => JsonV::Arr(items(a@)),
            Json::Object(o) => JsonV::Obj(fields(o@)),
            Json::Null => JsonV::Null,
            Json::Bool(b) => JsonV::Bool(b),
            Json::Number(n) => JsonV::Num(n@),
            Json::Str(s) => JsonV::Str(s@),
        },
{
    match v {
        Json::Array(a) => {
            assert(v@->Arr_0 =~= items(a@));
        },
        Json::Object(o) => {
            assert(v@->Obj_0 =~= fields(o@));
        },
        _ => {},
    }
}

/// What an optional value holds.
pub open spec fn opt(v: Option<Json>) -> Option<JsonV> {
    match v {
        Some(j) => Some(j@),
        None => None,
    }
}

/// What an optional borrowed value holds.
pub open spec fn opt_ref(v: Option<&Json>) -> Option<JsonV> {
    match v {
        Some(j) => Some(j@),
        None => None,
    }
}

/// Whether `a` stands before `b` in the order of strings.
pub open spec fn before(a: Seq<char>, b: Seq<char>) -> bool
    decreases a.len(),
{
    if b.len() == 0 {
        false
    } else if a.len() == 0 {
        true
    } else if a[0] == b[0] {
        before(a.skip(1), b.skip(1))
    } else {
        a[0] < b[0]
    }
}

/// The value of the first field with the key.
pub open spec fn field(o: Seq<(Seq<char>, JsonV)>, key: Seq<char>) -> Option<JsonV>
    decreases o.len(),
{
    if o.len() == 0 {
        None
    } else if o[0].0 == key {
        Some(o[0].1)
    } else {
        field(o.skip(1), key)
    }
}

/// The fields with `key` set to `val`: replaced where it is there, else put in order.
pub open spec fn with_field(o: Seq<(Seq<char>, JsonV)>, key: Seq<char>, val: JsonV) -> Seq<(Seq<char>, JsonV)>
    decreases o.len(),
{
    if o.len() == 0 {
        seq![(key, val)]
    } else if o[0].0 == key {
        seq![(key, val)] + o.skip(1)
    } else if before(key, o[0].0) {
        seq![(key, val)] + o
    } else {
        seq![o[0]] + with_field(o.skip(1), key, val)
    }
}

/// The fields without `key`.
pub open spec fn without_field(o: Seq<(Seq<char>, JsonV)>, key: Seq<char>) -> Seq<(Seq<char>, JsonV)> {
    o.filter(|p: (Seq<char>, JsonV)| p.0 != key)
}

impl JsonV {
    /// The field of an object; none of any other value.
    pub open spec fn get(self, key: Seq<char>) -> Option<JsonV> {
        match self {
            JsonV::Obj(o) => field(o, key),
            _ => None,
        }
    }

    /// The text of a string.
    pub open spec fn text(self) -> Option<Seq<char>> {
        match self {
            JsonV::Str(s) => Some(s),
            _ => None,
        }
    }

    /// The number where it is a whole number that fits in 64 bits with a sign.
    pub open spec fn whole(self) -> Option<int> {
        match self {
            JsonV::Num(NumV::Pos(u)) => if u <= i64::MAX {
                Some(u as int)
            } else {
                None
            },
            JsonV::Num(NumV::Neg(i)) => Some(i as int),
            _ => None,
        }
    }

    /// The number where it is a whole one that is not negative.
    pub open spec fn natural(self) -> Option<u64> {
        match self {
            JsonV::Num(NumV::Pos(u)) => Some(u),
            _ => None,
        }
    }

    /// The natural number of a field.
    pub open spec fn natural_at(self, key: Seq<char>) -> Option<u64> {
        match self.get(key) {
            Some(v) => v.natural(),
            None => None,
        }
    }

    /// The truth value of a boolean.
    pub open spec fn truth(self) -> Option<bool> {
        match self {
            JsonV::Bool(b) => Some(b),
            _ => None,
        }
    }

    /// The elements of an array.
    pub open spec fn list(self) -> Option<Seq<JsonV>> {
        match self {
            JsonV::Arr(a) => Some(a),
            _ => None,
        }
    }

    /// The elements of an array; none of any other value.
    pub open spec fn elements(self) -> Seq<JsonV> {
        match self {
            JsonV::Arr(a) => a,
            _ => Seq::empty(),
        }
    }

    /// The text of a field that is a string.
    pub open spec fn text_at(self, key: Seq<char>) -> Option<Seq<char>> {
        match self.get(key) {
            Some(v) => v.text(),
            None => None,
        }
    }

    /// The whole number of a field.
    pub open spec fn int_at(self, key: Seq<char>) -> Option<int> {
        match self.get(key) {
            Some(v) => v.whole(),
            None => None,
        }
    }

    /// The elements of a field that is an array; none of any other.
    pub open spec fn elements_at(self, key: Seq<char>) -> Seq<JsonV> {
        match self.get(key) {
            Some(v) => v.elements(),
            None => Seq::empty(),
        }
    }

    /// Whether a value is valid: keys in ascending order, numbers in the form they are read in.
    pub open spec fn wf(self) -> bool
        decreases self,
    {
        match self {
            JsonV::Num(n) => num_wf(n),
            JsonV::Arr(a) => forall|i: int| 0 <= i < a.len() ==> (#[trigger] a[i]).wf(),
            JsonV::Obj(o) => ascending(o) && forall|i: int| 0 <= i < o.len() ==> (#[trigger] o[i]).1.wf(),
            _ => true,
        }
    }
}

/// The key that `serde_json` reads as a value in raw text, and not as a field.
pub const RAW_KEY: &'static str = "$serde_json::private::RawValue";

/// Whether a value holds no floats and no field of the raw key, and arrays and objects stand in
/// each other at most as deep as said.
pub open spec fn is_shallow(v: JsonV, depth: nat) -> bool
    decreases v,
{
    match v {
        JsonV::Num(NumV::Flt(_)) => false,
        JsonV::Arr(a) => depth > 0 && forall|i: int|
            0 <= i < a.len() ==> is_shallow(#[trigger] a[i], (depth - 1) as nat),
        JsonV::Obj(o) => depth > 0 && forall|i: int|
            0 <= i < o.len() ==> (#[trigger] o[i]).0 != RAW_KEY@ && is_shallow(o[i].1, (depth - 1) as nat),
        _ => true,
    }
}

/// Whether a value, once printed, is read as the same value again.
pub open spec fn is_storable(v: JsonV) -> bool {
    v.wf() && is_shallow(v, 127)
}

/// Whether a number is in the form it is read in: a negative number below zero, a finite float.
pub open spec fn num_wf(n: NumV) -> bool {
    match n {
        NumV::Pos(_) => true,
        NumV::Neg(i) => i < 0,
        NumV::Flt(b) => (b / 0x10_0000_0000_0000) % 0x800 != 0x7ff,
    }
}

/// Whether the keys of the fields ascend.
pub open spec fn ascending(o: Seq<(Seq<char>, JsonV)>) -> bool {
    forall|i: int, j: int| 0 <= i < j < o.len() ==> before(#[trigger] o[i].0, #[trigger] o[j].0)
}

/// Setting a field makes it readable and leaves every other field as it was.
pub proof fn set_then_get(o: Seq<(Seq<char>, JsonV)>, key: Seq<char>, val: JsonV, other: Seq<char>)
    ensures
        field(with_field(o, key, val), other) == if other == key {
            Some(val)
        } else {
            field(o, other)
        },
    decreases o.len(),
{
    let w = with_field(o, key, val);
    if o.len() == 0 {
        assert(w.skip(1) =~= o);
        assert(field(w.skip(1), other) == field(o, other));
    } else if o[0].0 == key {
        assert(w.skip(1) =~= o.skip(1));
    } else if before(key, o[0].0) {
        assert(w.skip(1) =~= o);
    } else {
        assert(w.skip(1) =~= with_field(o.skip(1), key, val));
        set_then_get(o.skip(1), key, val, other);
    }
}

/// Setting a field makes it readable and leaves every other field as it was.
pub broadcast proof fn lemma_set_then_get(o: Seq<(Seq<char>, JsonV)>, key: Seq<char>, val: JsonV, other: Seq<char>)
    ensures
        #[trigger] field(with_field(o, key, val), other) == if other == key {
            Some(val)
        } else {
            field(o, other)
        },
{
    set_then_get(o, key, val, other);
}

/// `before` is a strict total order.
pub proof fn lemma_before_total(a: Seq<char>, b: Seq<char>)
    ensures
        before(a, b) ==> !before(b, a) && a != b,
        a != b ==> before(a, b) || before(b, a),
    decreases a.len(),
{
    if a.len() > 0 && b.len() > 0 && a[0] == b[0] {
        lemma_before_total(a.skip(1), b.skip(1));
        if a.skip(1) == b.skip(1) {
            assert(a =~= b) by {
                assert forall|i: int| 0 <= i < a.len() implies a[i] == b[i] by {
                    if i > 0 {
                        assert(a.skip(1)[i - 1] == b.skip(1)[i - 1]);
                    }
                }
            }
        }
    } else if a.len() == 0 && b.len() == 0 {
        assert(a =~= b);
    }
}

/// `before` is transitive.
pub proof fn lemma_before_trans(a: Seq<char>, b: Seq<char>, c: Seq<char>)
    requires
        before(a, b),
        before(b, c),
    ensures
        before(a, c),
    decreases a.len(),
{
    if a.len() > 0 && b.len() > 0 && c.len() > 0 && a[0] == b[0] && b[0] == c[0] {
        lemma_before_trans(a.skip(1), b.skip(1), c.skip(1));
    }
}

/// Setting a field keeps the keys in order.
pub proof fn set_keeps_order(o: Seq<(Seq<char>, JsonV)>, key: Seq<char>, val: JsonV)
    requires
        ascending(o),
    ensures
        ascending(with_field(o, key, val)),
        forall|i: int| 0 <= i < with_field(o, key, val).len() ==> ({
            let p = #[trigger] with_field(o, key, val)[i];
            p == (key, val) || exists|j: int| 0 <= j < o.len() && o[j] == p
        }),
    decreases o.len(),
{
    let w = with_field(o, key, val);
    if o.len() == 0 {
    } else if o[0].0 == key {
        assert forall|i: int| 0 <= i < w.len() implies ({
            let p = #[trigger] w[i];
            p == (key, val) || exists|j: int| 0 <= j < o.len() && o[j] == p
        }) by {
            if i > 0 {
                assert(w[i] == o[i]);
            }
        }
    } else if before(key, o[0].0) {
        assert forall|i: int, j: int| 0 <= i < j < w.len() implies before(#[trigger] w[i].0, #[trigger] w[j].0) by {
            if i == 0 && j > 1 {
                lemma_before_trans(key, o[0].0, o[j - 1].0);
            }
        }
        assert forall|i: int| 0 <= i < w.len() implies ({
            let p = #[trigger] w[i];
            p == (key, val) || exists|j: int| 0 <= j < o.len() && o[j] == p
        }) by {
            if i > 0 {
                assert(w[i] == o[i - 1]);
            }
        }
    } else {
        let rest = o.skip(1);
        set_keeps_order(rest, key, val);
        let wr = with_field(rest, key, val);
        lemma_before_total(key, o[0].0);
        assert forall|i: int| 0 <= i < w.len() implies ({
            let p = #[trigger] w[i];
            p == (key, val) || exists|j: int| 0 <= j < o.len() && o[j] == p
        }) by {
            if i == 0 {
                assert(w[0] == o[0]);
            } else {
                assert(w[i] == wr[i - 1]);
                if w[i] != (key, val) {
                    let j = choose|j: int| 0 <= j < rest.len() && rest[j] == wr[i - 1];
                    assert(o[j + 1] == w[i]);
                }
            }
        }
        assert forall|i: int, j: int| 0 <= i < j < w.len() implies before(#[trigger] w[i].0, #[trigger] w[j].0) by {
            assert(w[j] == wr[j - 1]);
            if i == 0 {
                if w[j] != (key, val) {
                    let k = choose|k: int| 0 <= k < rest.len() && rest[k] == wr[j - 1];
                    assert(o[k + 1] == w[j]);
                }
            } else {
                assert(w[i] == wr[i - 1]);
            }
        }
    }
}

/// Setting a field to a valid value keeps an object valid.
pub proof fn set_keeps_valid(o: Seq<(Seq<char>, JsonV)>, key: Seq<char>, val: JsonV)
    requires
        JsonV::Obj(o).wf(),
        val.wf(),
    ensures
        JsonV::Obj(with_field(o, key, val)).wf(),
{
    set_keeps_order(o, key, val);
    let w = with_field(o, key, val);
    assert forall|i: int| 0 <= i < w.len() implies (#[trigger] w[i]).1.wf() by {
        if w[i] != (key, val) {
            let j = choose|j: int| 0 <= j < o.len() && o[j] == w[i];
            assert(o[j].1.wf());
        }
    }
}

/// A field of a valid object is valid.
pub proof fn lemma_field_wf(o: Seq<(Seq<char>, JsonV)>, key: Seq<char>)
    requires
        forall|i: int| 0 <= i < o.len() ==> (#[trigger] o[i]).1.wf(),
    ensures
        field(o, key) matches Some(v) ==> v.wf(),
    decreases o.len(),
{
    if o.len() > 0 && o[0].0 != key {
        assert forall|i: int| 0 <= i < o.skip(1).len() implies (#[trigger] o.skip(1)[i]).1.wf() by {
            assert(o.skip(1)[i] == o[i + 1]);
        }
        lemma_field_wf(o.skip(1), key);
    }
}

/// A field of a valid value is valid.
pub broadcast proof fn lemma_get_wf(v: JsonV, key: Seq<char>)
    requires
        v.wf(),
    ensures
        (#[trigger] v.get(key)) matches Some(x) ==> x.wf(),
{
    if let JsonV::Obj(o) = v {
        lemma_field_wf(o, key);
    }
}

/// Whether `a` stands before `b` in the order of strings.
pub fn is_before(a: &str, b: &str) -> (r: bool)
    ensures
        r == before(a@, b@),
{
    let x = chars_of(a);
    let y = chars_of(b);
    let mut i: usize = 0;
    assert(x@.skip(0) =~= x@);
    assert(y@.skip(0) =~= y@);
    loop
        invariant
            x@ == a@,
            y@ == b@,
            i <= x@.len(),
            i <= y@.len(),
            before(a@, b@) == before(x@.skip(i as int), y@.skip(i as int)),
        decreases x@.len() - i,
    {
        if i == y.len() {
            return false;
        }
        if i == x.len() {
            return true;
        }
        if x[i] != y[i] {
            return x[i] < y[i];
        }
        proof {
            assert(x@.skip(i as int).skip(1) =~= x@.skip(i + 1));
            assert(y@.skip(i as int).skip(1) =~= y@.skip(i + 1));
        }
        i += 1;
    }
}

/// `serde_json::Value`, the tree that `serde_json` reads and prints.
#[verifier::external_type_specification]
#[verifier::external_body]
pub struct ExValue(serde_json::Value);

/// The name for what a `serde_json::Value` holds.
pub uninterp spec fn value_view(v: Value) -> JsonV;

/// The name for what `serde_json::from_str` reads out of a text: the value, or the error in words.
pub uninterp spec fn json_read(text: Seq<char>) -> Result<JsonV, Seq<char>>;

/// The name for how `serde_json` prints a value on one line that is no whole number.
pub uninterp spec fn printed(v: JsonV) -> Seq<char>;

/// A value printed as JSON on one line: a whole number in decimal, anything else as `serde_json` does.
pub open spec fn json_text(v: JsonV) -> Seq<char> {
    match v {
        JsonV::Num(NumV::Pos(u)) => digits::decimal(u as int),
        JsonV::Num(NumV::Neg(i)) => digits::decimal(i as int),
        _ => printed(v),
    }
}

/// Whether a text is read as a value, as far as the value is one that can be read back.
pub open spec fn is_read_back(text: Seq<char>, v: JsonV) -> bool {
    is_storable(v) ==> (json_read(text) matches Ok(j) && j == v)
}

/// `serde_json::from_str` into a `Value`, with the error printed. What is read, and the error, are
/// functions of the text alone.
#[verifier::external_body]
fn parse_value(text: &str) -> (r: Result<Value, String>)
    ensures
        match (r, json_read(text@)) {
            (Ok(v), Ok(j)) => value_view(v) == j,
            (Err(e), Err(m)) => e@ == m,
            _ => false,
        },
{
    serde_json::from_str::<Value>(text).map_err(|e| e.to_string())
}

/// The name for what `serde_json::from_slice` reads out of bytes; nothing where it fails.
pub uninterp spec fn json_of_bytes(bytes: Seq<u8>) -> Option<JsonV>;

/// `serde_json::from_slice` into a `Value`.
#[verifier::external_body]
fn parse_slice(bytes: &[u8]) -> (r: Option<Value>)
    ensures
        match (r, json_of_bytes(bytes@)) {
            (Some(v), Some(j)) => value_view(v) == j,
            (None, None) => true,
            _ => false,
        },
{
    serde_json::from_slice::<Value>(bytes).ok()
}

/// Reads a `serde_json::Value` off: `as_u64`, `as_i64` and `as_f64` tell the three forms of a
/// number apart, and a map hands its fields out in ascending order of their keys. Numbers below
/// zero and finite floats are all that a `Number` holds besides unsigned ones.
#[verifier::external_body]
fn from_value(v: &Value) -> (r: Json)
    ensures
        r@ == value_view(*v),
        r@.wf(),
{
    match v {
        Value::Null => Json::Null,
        Value::Bool(b) => Json::Bool(*b),
        Value::Number(n) => Json::Number(
            n.as_u64().map(Num::PosInt).or(n.as_i64().map(Num::NegInt)).unwrap_or(
                Num::Float(n.as_f64().unwrap_or_default().to_bits()),
            ),
        ),
        Value::String(s) => Json::Str(s.clone()),
        Value::Array(a) => Json::Array(a.iter().map(from_value).collect()),
        Value::Object(o) => Json::Object(o.iter().map(|(k, x)| (k.clone(), from_value(x))).collect()),
    }
}

/// Builds a `serde_json::Value` with the same contents; `bytes::Buf::get_f64` makes the double out
/// of its bits. Of a valid value nothing is lost.
#[verifier::external_body]
fn value_of(v: &Json) -> (r: Value)
    requires
        v@.wf(),
    ensures
        value_view(r) == v@,
{
    match v {
        Json::Null => Value::Null,
        Json::Bool(b) => Value::Bool(*b),
        Json::Number(Num::PosInt(u)) => Value::from(*u),
        Json::Number(Num::NegInt(i)) => Value::from(*i),
        Json::Number(Num::Float(b)) => Value::from(bytes::Buf::get_f64(&mut &b.to_be_bytes()[..])),
        Json::Str(s) => Value::from(s.as_str()),
        Json::Array(a) => Value::Array(a.iter().map(value_of).collect()),
        Json::Object(o) => Value::Object(o.iter().map(|(k, x)| (k.clone(), value_of(x))).collect()),
    }
}

/// Prints a `serde_json::Value` through its `Display`, which is the compact form: a whole number as its
/// decimal digits. What is printed is read by `serde_json::from_str` as the same value, as long as nothing stands deeper than it
/// reads and no field has the key that it keeps for raw text; of floats nothing is said, since
/// reading them may be off by the last bit.
#[verifier::external_body]
fn value_text(v: &Value) -> (r: String)
    ensures
        match value_view(*v) {
            JsonV::Num(NumV::Pos(u)) => r@ == digits::decimal(u as int),
            JsonV::Num(NumV::Neg(i)) => r@ == digits::decimal(i as int),
            x => r@ == printed(x),
        },
        is_read_back(r@, value_view(*v)),
{
    v.to_string()
}

/// `serde_json::Value::as_f64`, as bits: a float as it is, a whole number converted to the nearest
/// double, and between two to the even one, nothing for any other value. The double is finite.
#[verifier::external_body]
fn value_double(v: &Value) -> (r: Option<u64>)
    ensures
        r == match value_view(*v) {
            JsonV::Num(NumV::Flt(b)) => Some(b),
            JsonV::Num(NumV::Pos(u)) => Some(floats::int_double(u as int)),
            JsonV::Num(NumV::Neg(i)) => Some(floats::int_double(i as int)),
            _ => None,
        },
        r matches Some(b) ==> num_wf(NumV::Flt(b)),
{
    v.as_f64().map(|f| f.to_bits())
}

/// The bits of a number as a double.
pub open spec fn double_of(v: JsonV) -> Option<u64> {
    match v {
        JsonV::Num(NumV::Flt(b)) => Some(b),
        JsonV::Num(NumV::Pos(u)) => Some(floats::int_double(u as int)),
        JsonV::Num(NumV::Neg(i)) => Some(floats::int_double(i as int)),
        _ => None,
    }
}

/// What reading a text as JSON returns.
pub open spec fn read_result(r: Result<Json, String>) -> Result<JsonV, Seq<char>> {
    match r {
        Ok(j) => Ok(j@),
        Err(e) => Err(e@),
    }
}

/// A text read as JSON, or the error in words.
pub fn read_json(text: &str) -> (r: Result<Json, String>)
    ensures
        read_result(r) == json_read(text@),
        r matches Ok(j) ==> j@.wf(),
{
    match parse_value(text) {
        Ok(v) => Ok(from_value(&v)),
        Err(e) => Err(e),
    }
}

/// Bytes read as JSON.
pub fn read_json_bytes(bytes: &[u8]) -> (r: Option<Json>)
    ensures
        opt(r) == json_of_bytes(bytes@),
        r matches Some(j) ==> j@.wf(),
{
    match parse_slice(bytes) {
        Some(v) => Some(from_value(&v)),
        None => None,
    }
}

/// The value printed as JSON on one line.
pub fn print_json(v: &Json) -> (r: String)
    requires
        v@.wf(),
    ensures
        r@ == json_text(v@),
        is_storable(v@) ==> (json_read(r@) matches Ok(j) && j == v@),
{
    let x = value_of(v);
    value_text(&x)
}

/// The bits of a number as a double.
pub fn as_double(v: &Json) -> (r: Option<u64>)
    requires
        v@.wf(),
    ensures
        r == double_of(v@),
        r matches Some(b) ==> num_wf(NumV::Flt(b)),
{
    let x = value_of(v);
    value_double(&x)
}

/// The text of a string as it is; any other value printed as JSON.
pub open spec fn shown(v: JsonV) -> Seq<char> {
    match v {
        JsonV::Str(s) => s,
        _ => json_text(v),
    }
}

/// The text of a string as it is; any other value printed as JSON.
pub fn value_to_str(v: &Json) -> (r: String)
    requires
        v@.wf(),
    ensures
        r@ == shown(v@),
{
    broadcast use lemma_view_parts;

    match v {
        Json::Str(s) => s.clone(),
        _ => print_json(v),
    }
}

/// An array is larger than its elements.
proof fn lemma_element_smaller(v: Json, i: int)
    requires
        v is Array,
        0 <= i < v->Array_0@.len(),
    ensures
        decreases_to!(v => v->Array_0@[i]),
{
    assert(decreases_to!(v => v->Array_0));
    assert(decreases_to!(v->Array_0 => v->Array_0@));
    assert(decreases_to!(v->Array_0@ => v->Array_0@[i]));
}

/// An object is larger than the values of its fields.
proof fn lemma_field_smaller(v: Json, i: int)
    requires
        v is Object,
        0 <= i < v->Object_0@.len(),
    ensures
        decreases_to!(v => v->Object_0@[i].1),
{
    assert(decreases_to!(v => v->Object_0));
    assert(decreases_to!(v->Object_0 => v->Object_0@));
    assert(decreases_to!(v->Object_0@ => v->Object_0@[i]));
    assert(decreases_to!(v->Object_0@[i] => v->Object_0@[i].1));
}

impl Num {
    /// The same number.
    pub fn dup(&self) -> (r: Num)
        ensures
            r@ == self@,
    {
        match self {
            Num::PosInt(u) => Num::PosInt(*u),
            Num::NegInt(i) => Num::NegInt(*i),
            Num::Float(b) => Num::Float(*b),
        }
    }
}

impl Json {
    /// The same value.
    pub fn dup(&self) -> (r: Json)
        ensures
            r@ == self@,
        decreases self,
    {
        broadcast use lemma_view_parts;

        match self {
            Json::Null => Json::Null,
            Json::Bool(b) => Json::Bool(*b),
            Json::Number(n) => Json::Number(n.dup()),
            Json::Str(s) => Json::Str(s.clone()),
            Json::Array(a) => {
                let mut out: Vec<Json> = Vec::new();
                let mut i: usize = 0;
                while i < a.len()
                    invariant
                        i <= a@.len(),
                        *self == Json::Array(*a),
                        items(out@) == items(a@).take(i as int),
                    decreases a@.len() - i,
                {
                    proof {
                        lemma_element_smaller(*self, i as int);
                    }
                    let x = a[i].dup();
                    let ghost prev = out@;
                    out.push(x);
                    i += 1;
                    assert(items(out@) =~= items(prev).push(x@));
                    assert(items(out@) =~= items(a@).take(i as int));
                }
                assert(items(a@).take(a@.len() as int) =~= items(a@));
                Json::Array(out)
            },
            Json::Object(o) => {
                let mut out: Vec<(String, Json)> = Vec::new();
                let mut i: usize = 0;
                while i < o.len()
                    invariant
                        i <= o@.len(),
                        *self == Json::Object(*o),
                        fields(out@) == fields(o@).take(i as int),
                    decreases o@.len() - i,
                {
                    proof {
                        lemma_field_smaller(*self, i as int);
                    }
                    let k = o[i].0.clone();
                    let x = o[i].1.dup();
                    let ghost prev = out@;
                    out.push((k, x));
                    i += 1;
                    assert(fields(out@) =~= fields(prev).push((k@, x@)));
                    assert(fields(out@) =~= fields(o@).take(i as int));
                }
                assert(fields(o@).take(o@.len() as int) =~= fields(o@));
                Json::Object(out)
            },
        }
    }

    /// The field of an object with the key.
    pub fn get(&self, key: &str) -> (r: Option<&Json>)
        ensures
            opt_ref(r) == self@.get(key@),
            r matches Some(x) ==> decreases_to!(*self => *x),
    {
        broadcast use lemma_view_parts;

        match self {
            Json::Object(o) => {
                let mut i: usize = 0;
                assert(fields(o@).skip(0) =~= fields(o@));
                while i < o.len()
                    invariant
                        i <= o@.len(),
                        *self == Json::Object(*o),
                        field(fields(o@), key@) == field(fields(o@).skip(i as int), key@),
                    decreases o@.len() - i,
                {
                    let ghost rest = fields(o@).skip(i as int);
                    assert(rest[0] == (o@[i as int].0@, o@[i as int].1@));
                    if same(o[i].0.as_str(), key) {
                        proof {
                            lemma_field_smaller(*self, i as int);
                            lemma_view_parts(*self);
                        }
                        return Some(&o[i].1);
                    }
                    assert(rest.skip(1) =~= fields(o@).skip(i + 1));
                    i += 1;
                }
                None
            },
            _ => None,
        }
    }

    /// The text of a string.
    pub fn as_str(&self) -> (r: Option<&str>)
        ensures
            text::opt_str(r) == self@.text(),
    {
        broadcast use lemma_view_parts;

        match self {
            Json::Str(s) => Some(s.as_str()),
            _ => None,
        }
    }

    /// The number where it is a whole number that fits in 64 bits with a sign.
    pub fn as_i64(&self) -> (r: Option<i64>)
        ensures
            match r {
                Some(n) => self@.whole() == Some(n as int),
                None => self@.whole() is None,
            },
    {
        broadcast use lemma_view_parts;

        match self {
            Json::Number(Num::PosInt(u)) => if *u <= 0x7fff_ffff_ffff_ffff {
                Some(*u as i64)
            } else {
                None
            },
            Json::Number(Num::NegInt(i)) => Some(*i),
            _ => None,
        }
    }

    /// The number where it is a whole one that is not negative.
    pub fn as_u64(&self) -> (r: Option<u64>)
        ensures
            r == self@.natural(),
    {
        broadcast use lemma_view_parts;

        match self {
            Json::Number(Num::PosInt(u)) => Some(*u),
            _ => None,
        }
    }

    /// The natural number of a field.
    pub fn u64_at(&self, key: &str) -> (r: Option<u64>)
        ensures
            r == self@.natural_at(key@),
    {
        match self.get(key) {
            Some(v) => v.as_u64(),
            None => None,
        }
    }

    /// The truth value of a boolean.
    pub fn as_bool(&self) -> (r: Option<bool>)
        ensures
            r == self@.truth(),
    {
        broadcast use lemma_view_parts;

        match self {
            Json::Bool(b) => Some(*b),
            _ => None,
        }
    }

    /// The elements of an array.
    pub fn as_array(&self) -> (r: Option<&Vec<Json>>)
        ensures
            match r {
                Some(a) => self@ == JsonV::Arr(items(a@)) && *self == Json::Array(*a),
                None => self@ !is Arr,
            },
    {
        broadcast use lemma_view_parts;

        match self {
            Json::Array(a) => Some(a),
            _ => None,
        }
    }

    /// Whether this is an object.
    pub fn is_object(&self) -> (r: bool)
        ensures
            r == (self@ is Obj),
    {
        broadcast use lemma_view_parts;

        matches!(self, Json::Object(_))
    }

    /// Whether this is null.
    pub fn is_null(&self) -> (r: bool)
        ensures
            r == (self@ is Null),
    {
        broadcast use lemma_view_parts;

        matches!(self, Json::Null)
    }

    /// The text of a field that is a string.
    pub fn str_at(&self, key: &str) -> (r: Option<&str>)
        ensures
            text::opt_str(r) == self@.text_at(key@),
    {
        match self.get(key) {
            Some(v) => v.as_str(),
            None => None,
        }
    }

    /// The whole number of a field.
    pub fn i64_at(&self, key: &str) -> (r: Option<i64>)
        ensures
            match r {
                Some(n) => self@.int_at(key@) == Some(n as int),
                None => self@.int_at(key@) is None,
            },
    {
        match self.get(key) {
            Some(v) => v.as_i64(),
            None => None,
        }
    }
}

/// Sets a field of an object.
pub fn put(o: &mut Vec<(String, Json)>, key: &str, val: Json)
    ensures
        fields(final(o)@) == with_field(fields(old(o)@), key@, val@),
        JsonV::Obj(fields(old(o)@)).wf() && val@.wf() ==> JsonV::Obj(fields(final(o)@)).wf(),
{
    let ghost start = fields(o@);
    proof {
        if JsonV::Obj(start).wf() && val@.wf() {
            set_keeps_valid(start, key@, val@);
        }
    }
    let mut i: usize = 0;
    assert(start.skip(0) =~= start);
    assert(start.take(0) + with_field(start, key@, val@) =~= with_field(start, key@, val@));
    while i < o.len()
        invariant
            i <= o@.len(),
            start == fields(o@),
            o@ == old(o)@,
            JsonV::Obj(start).wf() && val@.wf() ==> JsonV::Obj(with_field(start, key@, val@)).wf(),
            with_field(start, key@, val@) == start.take(i as int) + with_field(
                start.skip(i as int),
                key@,
                val@,
            ),
        decreases o@.len() - i,
    {
        let ghost rest = start.skip(i as int);
        assert(rest[0] == (o@[i as int].0@, o@[i as int].1@));
        if same(o[i].0.as_str(), key) {
            let entry = (key.to_owned(), val);
            o.set(i, entry);
            assert(fields(o@) =~= start.take(i as int) + with_field(rest, key@, val@));
            return;
        }
        if is_before(key, o[i].0.as_str()) {
            let entry = (key.to_owned(), val);
            o.insert(i, entry);
            assert(fields(o@) =~= start.take(i as int) + with_field(rest, key@, val@));
            return;
        }
        assert(rest.skip(1) =~= start.skip(i + 1));
        assert(start.take(i as int) + with_field(rest, key@, val@) =~= start.take(i + 1) + with_field(
            start.skip(i + 1),
            key@,
            val@,
        ));
        i += 1;
    }
    let entry = (key.to_owned(), val);
    o.push(entry);
    assert(fields(o@) =~= start.take(i as int) + with_field(start.skip(i as int), key@, val@));
}

/// A string, or null.
pub open spec fn str_or_null(t: Option<Seq<char>>) -> JsonV {
    match t {
        Some(s) => JsonV::Str(s),
        None => JsonV::Null,
    }
}

/// A value, or null.
pub open spec fn or_null(v: Option<JsonV>) -> JsonV {
    match v {
        Some(x) => x,
        None => JsonV::Null,
    }
}

/// A value made of a text.
pub fn jstr(s: &str) -> (r: Json)
    ensures
        r@ == JsonV::Str(s@),
{
    broadcast use lemma_view_parts;

    Json::Str(s.to_owned())
}

/// A value made of a whole number.
pub open spec fn int_v(n: int) -> JsonV {
    if n >= 0 {
        JsonV::Num(NumV::Pos(n as u64))
    } else {
        JsonV::Num(NumV::Neg(n as i64))
    }
}

/// A value made of a whole number.
pub fn jint(n: i64) -> (r: Json)
    ensures
        r@ == int_v(n as int),
        r@.wf(),
{
    broadcast use lemma_view_parts;

    if n >= 0 {
        Json::Number(Num::PosInt(n as u64))
    } else {
        Json::Number(Num::NegInt(n))
    }
}

/// A string, or null.
pub fn jopt(s: &Option<String>) -> (r: Json)
    ensures
        r@ == str_or_null(text::opt_text(*s)),
{
    broadcast use lemma_view_parts;

    match s {
        Some(t) => Json::Str(t.clone()),
        None => Json::Null,
    }
}

/// An object without fields.
pub fn new_fields() -> (r: Vec<(String, Json)>)
    ensures
        fields(r@) == Seq::<(Seq<char>, JsonV)>::empty(),
        JsonV::Obj(fields(r@)).wf(),
{
    let r: Vec<(String, Json)> = Vec::new();
    assert(fields(r@) =~= Seq::empty());
    r
}

/// An object of the fields.
pub fn object(o: Vec<(String, Json)>) -> (r: Json)
    ensures
        r@ == JsonV::Obj(fields(o@)),
{
    let r = Json::Object(o);
    proof {
        lemma_view_parts(r);
    }
    r
}

/// The same value, or null.
pub fn dup_or_null(v: &Option<Json>) -> (r: Json)
    ensures
        r@ == or_null(opt(*v)),
{
    match v {
        Some(x) => x.dup(),
        None => Json::Null,
    }
}

/// The same field of a value, or null.
pub fn field_or_null(v: &Json, key: &str) -> (r: Json)
    ensures
        r@ == or_null(v@.get(key@)),
        v@.wf() ==> r@.wf(),
{
    proof {
        if v@.wf() {
            lemma_get_wf(v@, key@);
        }
    }
    match v.get(key) {
        Some(x) => x.dup(),
        None => Json::Null,
    }
}

/// The same values.
pub fn dup_list(list: &Vec<Json>) -> (r: Vec<Json>)
    ensures
        items(r@) == items(list@),
        r@.len() == list@.len(),
{
    let mut r: Vec<Json> = Vec::new();
    let mut i: usize = 0;
    while i < list.len()
        invariant
            i <= list@.len(),
            items(r@) == items(list@).take(i as int),
        decreases list@.len() - i,
    {
        let ghost before = items(r@);
        let x = list[i].dup();
        r.push(x);
        i += 1;
        assert(items(r@) =~= before.push(x@));
        assert(items(r@) =~= items(list@).take(i as int));
    }
    assert(items(list@).take(list@.len() as int) =~= items(list@));
    assert(items(r@).len() == r@.len());
    r
}

/// The fields of an object; none of any other value.
pub fn fields_of(v: &Json) -> (r: Vec<(String, Json)>)
    ensures
        fields(r@) == match v@ {
            JsonV::Obj(o) => o,
            _ => Seq::empty(),
        },
{
    broadcast use lemma_view_parts;

    match v.dup() {
        Json::Object(o) => o,
        _ => {
            let r: Vec<(String, Json)> = Vec::new();
            assert(fields(r@) =~= Seq::empty());
            r
        },
    }
}

/// Adds a value to a list.
pub fn push_item(list: &mut Vec<Json>, x: Json)
    ensures
        items(final(list)@) == items(old(list)@).push(x@),
        final(list)@.len() == old(list)@.len() + 1,
{
    let ghost before = items(list@);
    list.push(x);
    assert(items(list@) =~= before.push(x@));
}

/// A truth value, or null.
pub open spec fn truth_or_null(b: Option<bool>) -> JsonV {
    match b {
        Some(x) => JsonV::Bool(x),
        None => JsonV::Null,
    }
}

/// A whole number, or null.
pub open spec fn int_or_null(n: Option<int>) -> JsonV {
    match n {
        Some(x) => int_v(x),
        None => JsonV::Null,
    }
}

/// A whole number, or null.
pub fn jint_or_null(n: Option<i64>) -> (r: Json)
    ensures
        r@ == int_or_null(match n {
            Some(x) => Some(x as int),
            None => None,
        }),
        r@.wf(),
{
    match n {
        Some(x) => jint(x),
        None => Json::Null,
    }
}

/// An array of texts.
pub fn jtexts(v: &Vec<String>) -> (r: Json)
    ensures
        r@ == JsonV::Arr(text::texts(v@).map_values(|t: Seq<char>| JsonV::Str(t))),
        r@.wf(),
{
    let ghost want = text::texts(v@).map_values(|t: Seq<char>| JsonV::Str(t));
    let mut out: Vec<Json> = Vec::new();
    let mut i: usize = 0;
    while i < v.len()
        invariant
            i <= v@.len(),
            want == text::texts(v@).map_values(|t: Seq<char>| JsonV::Str(t)),
            items(out@) == want.take(i as int),
        decreases v@.len() - i,
    {
        push_item(&mut out, jstr(v[i].as_str()));
        i += 1;
        assert(items(out@) =~= want.take(i as int));
    }
    assert(items(out@) =~= want);
    let r = Json::Array(out);
    proof {
        lemma_view_parts(r);
        assert forall|k: int| 0 <= k < want.len() implies (#[trigger] want[k]).wf() by {
            assert(want[k] == JsonV::Str(text::texts(v@)[k]));
        }
    }
    r
}

/// Texts are in the order of the first characters in which they differ, and one that another begins with
/// comes before it.
pub proof fn texts_are_in_order_of_their_characters(s: Seq<char>, a: char, b: char, t: Seq<char>, u: Seq<char>)
    ensures
        before(s + seq![a] + t, s + seq![b] + u) == (a < b || (a == b && before(t, u))),
        before(s, s + seq![a] + t),
        !before(s + t, s),
    decreases s.len(),
{
    let x = s + seq![a] + t;
    let y = s + seq![b] + u;
    if s.len() == 0 {
        assert(x.skip(1) =~= t && y.skip(1) =~= u);
        assert(x[0] == a && y[0] == b);
    } else {
        let r = s.skip(1);
        texts_are_in_order_of_their_characters(r, a, b, t, u);
        assert(x.skip(1) =~= r + seq![a] + t);
        assert(y.skip(1) =~= r + seq![b] + u);
        assert(x[0] == s[0] && y[0] == s[0]);
        assert((s + t).skip(1) =~= r + t);
        assert((s + t)[0] == s[0]);
    }
}

/// A value is read as what it is, and as nothing else; numbers as whole ones where they are such and fit.
pub proof fn values_are_read_as_what_they_are(
    v: JsonV,
    key: Seq<char>,
    x: JsonV,
    s: Seq<char>,
    b: bool,
    n: u64,
    i: i64,
    a: Seq<JsonV>,
)
    ensures
        JsonV::Str(s).text() == Some(s) && JsonV::Null.text() is None && JsonV::Bool(b).text() is None,
        JsonV::Bool(b).truth() == Some(b) && JsonV::Null.truth() is None && JsonV::Str(s).truth() is None,
        n <= i64::MAX ==> JsonV::Num(NumV::Pos(n)).whole() == Some(n as int),
        n > i64::MAX ==> JsonV::Num(NumV::Pos(n)).whole() is None,
        JsonV::Num(NumV::Neg(i)).whole() == Some(i as int) && JsonV::Num(NumV::Flt(n)).whole() is None,
        JsonV::Num(NumV::Pos(n)).natural() == Some(n) && JsonV::Num(NumV::Neg(i)).natural() is None,
        JsonV::Num(NumV::Flt(n)).natural() is None && JsonV::Str(s).natural() is None,
        JsonV::Arr(a).elements() == a && JsonV::Null.elements().len() == 0 && JsonV::Str(s).elements().len() == 0,
        JsonV::Arr(a).list() == Some(a) && JsonV::Null.list() is None,
        v.get(key) == Some(x) ==> v.text_at(key) == x.text() && v.int_at(key) == x.whole() && v.natural_at(key)
            == x.natural() && v.elements_at(key) == x.elements(),
        v.get(key) is None ==> v.text_at(key) is None && v.int_at(key) is None && v.natural_at(key) is None
            && v.elements_at(key).len() == 0,
        v !is Obj ==> v.get(key) is None,
        double_of(JsonV::Num(NumV::Flt(n))) == Some(n) && double_of(JsonV::Num(NumV::Pos(n))) == Some(
            floats::int_double(n as int),
        ) && double_of(JsonV::Num(NumV::Neg(i))) == Some(floats::int_double(i as int)) && double_of(JsonV::Null) is None,
        shown(JsonV::Str(s)) == s && shown(JsonV::Null) == json_text(JsonV::Null) && shown(JsonV::Arr(a)) == json_text(
            JsonV::Arr(a),
        ),
{
}

/// The fields of an object are looked up by name, and the first of a name counts.
pub proof fn first_fields_count(
    a: Seq<(Seq<char>, JsonV)>,
    b: Seq<(Seq<char>, JsonV)>,
    key: Seq<char>,
    other: Seq<char>,
    v: JsonV,
)
    ensures
        field(a, key) is Some ==> field(a + b, key) == field(a, key),
        field(a, key) is None ==> field(a + b, key) == field(b, key),
        field(seq![(key, v)], key) == Some(v),
        other != key ==> field(seq![(other, v)], key) is None,
        JsonV::Obj(a).get(key) == field(a, key),
    decreases a.len(),
{
    reveal_with_fuel(field, 2);
    assert(seq![(other, v)].skip(1) =~= Seq::<(Seq<char>, JsonV)>::empty());
    if a.len() == 0 {
        assert(a + b =~= b);
    } else {
        first_fields_count(a.skip(1), b, key, other, v);
        assert((a + b).skip(1) =~= a.skip(1) + b);
        assert((a + b)[0] == a[0]);
    }
}

/// Whole numbers are held as they are, and what is not told is null.
pub proof fn numbers_are_held_by_their_sign(n: int, s: Seq<char>, b: bool, v: JsonV)
    ensures
        0 <= n <= u64::MAX ==> int_v(n) == JsonV::Num(NumV::Pos(n as u64)),
        i64::MIN <= n < 0 ==> int_v(n) == JsonV::Num(NumV::Neg(n as i64)),
        i64::MIN <= n <= i64::MAX ==> int_v(n).whole() == Some(n),
        str_or_null(Some(s)) == JsonV::Str(s) && str_or_null(None) == JsonV::Null,
        or_null(Some(v)) == v && or_null(None) == JsonV::Null,
        truth_or_null(Some(b)) == JsonV::Bool(b) && truth_or_null(None) == JsonV::Null,
        int_or_null(Some(n)) == int_v(n) && int_or_null(None) == JsonV::Null,
{
}

/// Taking a field out leaves all others and takes it out wherever it stands.
pub proof fn taken_fields_are_gone(o: Seq<(Seq<char>, JsonV)>, key: Seq<char>, other: Seq<char>)
    ensures
        field(without_field(o, key), key) is None,
        other != key ==> field(without_field(o, key), other) == field(o, other),
    decreases o.len(),
{
    reveal(Seq::filter);
    if o.len() > 0 {
        let f = o.drop_last();
        let last = o.last();
        let one = seq![(last.0, last.1)];
        let kept = without_field(f, key);
        taken_fields_are_gone(f, key, other);
        assert(o =~= f + one);
        first_fields_count(f, one, other, last.0, last.1);
        first_fields_count(kept, one, other, last.0, last.1);
        first_fields_count(kept, one, key, last.0, last.1);
        first_fields_count(f, one, last.0, other, last.1);
        assert(kept.push(last) =~= kept + one);
        assert(without_field(o, key) == if last.0 != key {
            kept.push(last)
        } else {
            kept
        });
    } else {
        assert(without_field(o, key) =~= Seq::empty());
    }
}

} // verus!
