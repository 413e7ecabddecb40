//! A JSON document as the connector reads and writes it, with its
//! mathematical model and the lookups the connector makes.
use vstd::prelude::*;

use crate::text::{chars_of, string_from_chars};

verus! {

/// A JSON number, in the three forms a JSON parser keeps apart.
/// `Float` holds the number's own rendering.
#[derive(Debug, PartialEq)]
pub enum JsonNumber {
    PosInt(u64),
    NegInt(i64),
    Float(String),
}

/// A JSON value. The objects of a parsed document list their members in
/// key order, each key once, as its map holds them (see `in_key_order`);
/// functions whose result depends on member order require that.
#[derive(Debug, PartialEq)]
pub enum Json {
    Null,
    Bool(bool),
    Number(JsonNumber),
    Str(String),
    Array(Vec<Json>),
    Object(Vec<(String, Json)>),
}

/// The model of a JSON number.
pub enum NumberModel {
    PosInt(u64),
    NegInt(i64),
    Float(Seq<char>),
}

/// The model of a JSON value: strings as character sequences, arrays and
/// objects as sequences.
pub enum JsonModel {
    Null,
    Bool(bool),
    Number(NumberModel),
    Str(Seq<char>),
    Array(Seq<JsonModel>),
    Object(Seq<(Seq<char>, JsonModel)>),
}

impl View for JsonNumber {
    type V = NumberModel;

    open spec fn view(&self) -> NumberModel {
        match self {
            JsonNumber::PosInt(n) => NumberModel::PosInt(*n),
            JsonNumber::NegInt(n) => NumberModel::NegInt(*n),
            JsonNumber::Float(s) => NumberModel::Float(s@),
        }
    }
}

/// The model of a JSON value.
pub open spec fn json_model(j: Json) -> JsonModel
    decreases j,
{
    match j {
        Json::Null => JsonModel::Null,
        Json::Bool(b) => JsonModel::Bool(b),
        Json::Number(n) => JsonModel::Number(n@),
        Json::Str(s) => JsonModel::Str(s@),
        Json::Array(items) => JsonModel::Array(items_model(items@)),
        Json::Object(members) => JsonModel::Object(members_model(members@)),
    }
}

/// The models of array items, in order.
pub open spec fn items_model(items: Seq<Json>) -> Seq<JsonModel>
    decreases items,
{
    if items.len() == 0 {
        Seq::empty()
    } else {
        seq![json_model(items[0])] + items_model(items.drop_first())
    }
}

/// The models of object members, in order.
pub open spec fn members_model(members: Seq<(String, Json)>) -> Seq<(Seq<char>, JsonModel)>
    decreases members,
{
    if members.len() == 0 {
        Seq::empty()
    } else {
        seq![(members[0].0@, json_model(members[0].1))] + members_model(members.drop_first())
    }
}

impl View for Json {
    type V = JsonModel;

    open spec fn view(&self) -> JsonModel {
        json_model(*self)
    }
}

/// `items_model` is taken item by item.
pub proof fn lemma_items_model(items: Seq<Json>)
    ensures
        items_model(items).len() == items.len(),
        forall|k: int| 0 <= k < items.len() ==> #[trigger] items_model(items)[k] == json_model(items[k]),
    decreases items.len(),
{
    if items.len() > 0 {
        lemma_items_model(items.drop_first());
        assert forall|k: int| 0 <= k < items.len() implies #[trigger] items_model(items)[k] == json_model(items[k]) by {
            if k > 0 {
                assert(items_model(items)[k] == items_model(items.drop_first())[k - 1]);
            }
        }
    }
}

/// `members_model` is taken member by member.
pub proof fn lemma_members_model(members: Seq<(String, Json)>)
    ensures
        members_model(members).len() == members.len(),
        forall|k: int|
            0 <= k < members.len() ==> #[trigger] members_model(members)[k] == (
                members[k].0@,
                json_model(members[k].1),
            ),
    decreases members.len(),
{
    if members.len() > 0 {
        lemma_members_model(members.drop_first());
        assert forall|k: int| 0 <= k < members.len() implies #[trigger] members_model(members)[k] == (
            members[k].0@,
            json_model(members[k].1),
        ) by {
            if k > 0 {
                assert(members_model(members)[k] == members_model(members.drop_first())[k - 1]);
            }
        }
    }
}

/// `a` sorts before `b` as Rust orders strings: by their UTF-8 bytes, which
/// is character by character by code point, a proper prefix first.
pub open spec fn key_less(a: Seq<char>, b: Seq<char>) -> bool
    decreases a.len(),
{
    if a.len() == 0 {
        b.len() > 0
    } else if b.len() == 0 {
        false
    } else if (a[0] as u32) < (b[0] as u32) {
        true
    } else if a[0] == b[0] {
        key_less(a.drop_first(), b.drop_first())
    } else {
        false
    }
}

/// Members listed in strictly increasing key order: the order in which a
/// parsed document's map lists its keys, each once.
pub open spec fn in_key_order(members: Seq<(Seq<char>, JsonModel)>) -> bool {
    forall|i: int, j: int| 0 <= i < j < members.len() ==> key_less(#[trigger] members[i].0, #[trigger] members[j].0)
}

/// Every object among `items` lists its members in key order.
pub open spec fn objects_in_key_order(items: Seq<JsonModel>) -> bool {
    forall|i: int|
        0 <= i < items.len() ==> (#[trigger] items[i] matches JsonModel::Object(members) ==> in_key_order(
            members,
        ))
}

/// The models of a sequence of values.
pub open spec fn models(items: Seq<Json>) -> Seq<JsonModel> {
    items.map_values(|j: Json| j@)
}

/// The value of the first member named `key`.
pub open spec fn member(members: Seq<(Seq<char>, JsonModel)>, key: Seq<char>) -> Option<JsonModel>
    decreases members.len(),
{
    if members.len() == 0 {
        None
    } else if members[0].0 == key {
        Some(members[0].1)
    } else {
        member(members.drop_first(), key)
    }
}

/// `value[key]` for an object, nothing for any other value (`Value::get`).
pub open spec fn get_spec(value: JsonModel, key: Seq<char>) -> Option<JsonModel> {
    match value {
        JsonModel::Object(members) => member(members, key),
        _ => None,
    }
}

/// `Value::as_str`.
pub open spec fn as_str_spec(value: Option<JsonModel>) -> Option<Seq<char>> {
    match value {
        Some(JsonModel::Str(s)) => Some(s),
        _ => None,
    }
}

/// `Value::as_bool`.
pub open spec fn as_bool_spec(value: Option<JsonModel>) -> Option<bool> {
    match value {
        Some(JsonModel::Bool(b)) => Some(b),
        _ => None,
    }
}

/// `Value::as_array`.
pub open spec fn as_array_spec(value: Option<JsonModel>) -> Option<Seq<JsonModel>> {
    match value {
        Some(JsonModel::Array(items)) => Some(items),
        _ => None,
    }
}

/// `Value::as_i64`: integers that fit in an `i64`.
pub open spec fn as_i64_spec(value: Option<JsonModel>) -> Option<int> {
    match value {
        Some(JsonModel::Number(NumberModel::PosInt(n))) => if n <= i64::MAX {
            Some(n as int)
        } else {
            None
        },
        Some(JsonModel::Number(NumberModel::NegInt(n))) => Some(n as int),
        _ => None,
    }
}

/// An object's member models, given member by member.
pub proof fn lemma_object_model(members: Seq<(String, Json)>, expect: Seq<(Seq<char>, JsonModel)>)
    requires
        members.len() == expect.len(),
        forall|k: int|
            0 <= k < members.len() ==> (#[trigger] members[k]).0@ == expect[k].0 && members[k].1@
                == expect[k].1,
    ensures
        members_model(members) == expect,
{
    lemma_members_model(members);
    assert(members_model(members) =~= expect);
}

/// An array's item models, given item by item.
pub proof fn lemma_array_model(items: Seq<Json>, expect: Seq<JsonModel>)
    requires
        items.len() == expect.len(),
        forall|k: int| 0 <= k < items.len() ==> (#[trigger] items[k])@ == expect[k],
    ensures
        items_model(items) == expect,
{
    lemma_items_model(items);
    assert(items_model(items) =~= expect);
}

/// A string value.
pub fn text(s: &str) -> (j: Json)
    ensures
        j@ == JsonModel::Str(s@),
{
    Json::Str(s.to_owned())
}

/// An object member.
pub fn member_of(key: &str, value: Json) -> (m: (String, Json))
    ensures
        m.0@ == key@,
        m.1 == value,
{
    (key.to_owned(), value)
}

/// The decimal digit character for `d < 10`.
pub open spec fn digit_char(d: nat) -> char {
    (0x30 + d) as char
}

/// The decimal rendering of a natural number, without leading zeros.
pub open spec fn decimal(n: nat) -> Seq<char>
    decreases n,
{
    if n < 10 {
        seq![digit_char(n)]
    } else {
        decimal(n / 10).push(digit_char(n % 10))
    }
}

/// How a JSON number prints (`Number`'s `Display`).
pub open spec fn number_text_spec(n: NumberModel) -> Seq<char> {
    match n {
        NumberModel::PosInt(v) => decimal(v as nat),
        NumberModel::NegInt(v) => if v < 0 {
            seq!['-'] + decimal((-v) as nat)
        } else {
            decimal(v as nat)
        },
        NumberModel::Float(s) => s,
    }
}

/// Digits of `n`, most significant first.
fn decimal_digits(n: u64) -> (s: Vec<char>)
    ensures
        s@ == decimal(n as nat),
{
    let mut digits: Vec<char> = Vec::new();
    let mut m: u64 = n;
    // `digits` holds the low digits of `n`, least significant first.
    while m >= 10
        invariant
            decimal(n as nat) == decimal(m as nat) + digits@.reverse(),
        decreases m,
    {
        let d = m % 10;
        let c = (0x30u8 + d as u8) as char;
        proof {
            assert(decimal(m as nat) == decimal((m / 10) as nat).push(digit_char((m % 10) as nat)));
            assert(c == digit_char((m % 10) as nat));
            assert(digits@.push(c).reverse() =~= seq![c] + digits@.reverse());
            assert(decimal((m / 10) as nat).push(c) + digits@.reverse() =~= decimal((m / 10) as nat)
                + (seq![c] + digits@.reverse()));
        }
        digits.push(c);
        m = m / 10;
    }
    let c = (0x30u8 + m as u8) as char;
    assert(c == digit_char(m as nat));
    digits.push(c);
    proof {
        assert(decimal(m as nat) == seq![c]);
        assert(digits@.reverse() =~= seq![c] + digits@.drop_last().reverse());
    }
    let mut out: Vec<char> = Vec::new();
    let len = digits.len();
    let mut i: usize = 0;
    while i < len
        invariant
            len == digits.len(),
            i <= len,
            out@ == digits@.reverse().take(i as int),
        decreases len - i,
    {
        out.push(digits[len - 1 - i]);
        assert(out@ =~= digits@.reverse().take(i + 1));
        i = i + 1;
    }
    assert(digits@.reverse().take(len as int) =~= digits@.reverse());
    out
}

/// Whether `a` sorts before `b` (see `key_less`).
pub fn key_before(a: &str, b: &str) -> (r: bool)
    ensures
        r == key_less(a@, b@),
{
    let x = chars_of(a);
    let y = chars_of(b);
    let mut k: usize = 0;
    assert(x@.skip(0) =~= x@ && y@.skip(0) =~= y@);
    while k < x.len() && k < y.len()
        invariant
            k <= x.len(),
            k <= y.len(),
            key_less(x@.skip(k as int), y@.skip(k as int)) == key_less(a@, b@),
            x@ == a@,
            y@ == b@,
        decreases x.len() - k,
    {
        let ghost xs = x@.skip(k as int);
        let ghost ys = y@.skip(k as int);
        assert(xs[0] == x@[k as int] && ys[0] == y@[k as int]);
        if x[k] != y[k] {
            return (x[k] as u32) < (y[k] as u32);
        }
        assert(xs.drop_first() =~= x@.skip(k + 1));
        assert(ys.drop_first() =~= y@.skip(k + 1));
        k = k + 1;
    }
    assert(x@.skip(k as int).len() == x.len() - k);
    assert(y@.skip(k as int).len() == y.len() - k);
    k == x.len() && k < y.len()
}

/// Whether every object among `items` lists its members in key order.
pub fn objects_ordered(items: &Vec<Json>) -> (r: bool)
    ensures
        r == objects_in_key_order(models(items@)),
{
    let mut i: usize = 0;
    while i < items.len()
        invariant
            i <= items.len(),
            forall|t: int|
                0 <= t < i ==> (#[trigger] models(items@)[t] matches JsonModel::Object(members)
                    ==> in_key_order(members)),
        decreases items.len() - i,
    {
        if let Json::Object(members) = &items[i] {
            let ghost ms = members_model(members@);
            proof {
                lemma_members_model(members@);
                assert(models(items@)[i as int] == JsonModel::Object(ms));
            }
            let mut p: usize = 0;
            while p < members.len()
                invariant
                    p <= members.len(),
                    i < items.len(),
                    models(items@)[i as int] == JsonModel::Object(ms),
                    ms == members_model(members@),
                    ms.len() == members.len(),
                    forall|m: int| 0 <= m < members.len() ==> #[trigger] ms[m] == (members@[m].0@, members@[m].1@),
                    forall|u: int, v: int| 0 <= u < p && u < v < ms.len() ==> key_less(#[trigger] ms[u].0, #[trigger] ms[v].0),
                decreases members.len() - p,
            {
                let mut q: usize = p + 1;
                while q < members.len()
                    invariant
                        p < members.len(),
                        p + 1 <= q <= members.len(),
                        i < items.len(),
                        models(items@)[i as int] == JsonModel::Object(ms),
                        ms.len() == members.len(),
                        forall|m: int| 0 <= m < members.len() ==> #[trigger] ms[m] == (members@[m].0@, members@[m].1@),
                        forall|u: int, v: int| 0 <= u < p && u < v < ms.len() ==> key_less(#[trigger] ms[u].0, #[trigger] ms[v].0),
                        forall|v: int| p < v < q ==> key_less(ms[p as int].0, #[trigger] ms[v].0),
                    decreases members.len() - q,
                {
                    if !key_before(members[p].0.as_str(), members[q].0.as_str()) {
                        assert(!in_key_order(ms)) by {
                            assert(!key_less(ms[p as int].0, ms[q as int].0));
                        }
                        assert(!objects_in_key_order(models(items@))) by {
                            assert(models(items@)[i as int] matches JsonModel::Object(m) && !in_key_order(m));
                        }
                        return false;
                    }
                    q = q + 1;
                }
                p = p + 1;
            }
        }
        i = i + 1;
    }
    true
}

impl JsonNumber {
    /// How the number prints.
    pub fn to_text(&self) -> (s: String)
        ensures
            s@ == number_text_spec(self@),
    {
        match self {
            JsonNumber::PosInt(v) => string_from_chars(&decimal_digits(*v)),
            JsonNumber::NegInt(v) => {
                if *v < 0 {
                    let magnitude: u64 = ((-(*v + 1)) as u64) + 1;
                    let mut chars: Vec<char> = Vec::new();
                    chars.push('-');
                    let mut digits = decimal_digits(magnitude);
                    chars.append(&mut digits);
                    assert(chars@ =~= seq!['-'] + decimal((-*v) as nat));
                    string_from_chars(&chars)
                } else {
                    string_from_chars(&decimal_digits(*v as u64))
                }
            },
            JsonNumber::Float(s) => s.clone(),
        }
    }
}

impl Json {
    /// A copy of the value with the same model.
    pub fn duplicate(&self) -> (r: Json)
        ensures
            r@ == self@,
        decreases self,
    {
        match self {
            Json::Null => Json::Null,
            Json::Bool(b) => Json::Bool(*b),
            Json::Number(n) => Json::Number(
                match n {
                    JsonNumber::PosInt(v) => JsonNumber::PosInt(*v),
                    JsonNumber::NegInt(v) => JsonNumber::NegInt(*v),
                    JsonNumber::Float(s) => JsonNumber::Float(s.clone()),
                },
            ),
            Json::Str(s) => Json::Str(s.clone()),
            Json::Array(items) => {
                let mut out: Vec<Json> = Vec::new();
                let mut i: usize = 0;
                while i < items.len()
                    invariant
                        *self == Json::Array(*items),
                        i <= items.len(),
                        out.len() == i,
                        forall|k: int| 0 <= k < i ==> (#[trigger] out@[k])@ == items@[k]@,
                    decreases items.len() - i,
                {
                    proof {
                        assert(decreases_to!(*self => (*self)->Array_0));
                        assert(decreases_to!(*items => items@));
                        assert(decreases_to!(items@ => items@[i as int]));
                    }
                    out.push(items[i].duplicate());
                    i = i + 1;
                }
                proof {
                    lemma_items_model(out@);
                    lemma_items_model(items@);
                    assert(items_model(out@) =~= items_model(items@));
                }
                Json::Array(out)
            },
            Json::Object(members) => {
                let mut out: Vec<(String, Json)> = Vec::new();
                let mut i: usize = 0;
                while i < members.len()
                    invariant
                        *self == Json::Object(*members),
                        i <= members.len(),
                        out.len() == i,
                        forall|k: int|
                            0 <= k < i ==> (#[trigger] out@[k]).0@ == members@[k].0@ && out@[k].1@
                                == members@[k].1@,
                    decreases members.len() - i,
                {
                    proof {
                        assert(decreases_to!(*self => (*self)->Object_0));
                        assert(decreases_to!(*members => members@));
                        assert(decreases_to!(members@ => members@[i as int]));
                        assert(decreases_to!(members@[i as int] => members@[i as int].1));
                    }
                    out.push((members[i].0.clone(), members[i].1.duplicate()));
                    i = i + 1;
                }
                proof {
                    lemma_members_model(out@);
                    lemma_members_model(members@);
                    assert(members_model(out@) =~= members_model(members@));
                }
                Json::Object(out)
            },
        }
    }

    /// The value of the first member named `key` of an object (`Value::get`).
    pub fn get(&self, key: &str) -> (r: Option<&Json>)
        ensures
            r matches Some(v) ==> get_spec(self@, key@) == Some(v@),
            r is None ==> get_spec(self@, key@) is None,
    {
        match self {
            Json::Object(members) => {
                let k = key.to_owned();
                let ghost all = members_model(members@);
                proof {
                    lemma_members_model(members@);
                }
                assert(forall|j: int|
                    0 <= j < members.len() ==> #[trigger] all[j] == (members@[j].0@, members@[j].1@));
                let mut i: usize = 0;
                assert(all.skip(0) =~= all);
                while i < members.len()
                    invariant
                        i <= members.len(),
                        k@ == key@,
                        all.len() == members.len(),
                        forall|j: int|
                            0 <= j < members.len() ==> #[trigger] all[j] == (members@[j].0@, members@[j].1@),
                        get_spec(self@, key@) == member(all.skip(i as int), key@),
                    decreases members.len() - i,
                {
                    proof {
                        assert(all.skip(i as int).drop_first() =~= all.skip(i + 1));
                        assert(all.skip(i as int)[0] == all[i as int]);
                    }
                    if members[i].0 == k {
                        return Some(&members[i].1);
                    }
                    i = i + 1;
                }
                None
            },
            _ => None,
        }
    }

    /// The text of a string value (`Value::as_str`).
    pub fn as_str(&self) -> (r: Option<&str>)
        ensures
            r matches Some(s) ==> as_str_spec(Some(self@)) == Some(s@),
            r is None ==> as_str_spec(Some(self@)) is None,
    {
        match self {
            Json::Str(s) => Some(s.as_str()),
            _ => None,
        }
    }

    /// The items of an array value (`Value::as_array`).
    pub fn as_array(&self) -> (r: Option<&Vec<Json>>)
        ensures
            r matches Some(items) ==> as_array_spec(Some(self@)) == Some(items_model(items@)),
            r is None ==> as_array_spec(Some(self@)) is None,
    {
        match self {
            Json::Array(items) => Some(items),
            _ => None,
        }
    }

    /// The flag of a boolean value (`Value::as_bool`).
    pub fn as_bool(&self) -> (r: Option<bool>)
        ensures
            r == as_bool_spec(Some(self@)),
    {
        match self {
            Json::Bool(b) => Some(*b),
            _ => None,
        }
    }

    /// An integer value that fits in `i64` (`Value::as_i64`).
    pub fn as_i64(&self) -> (r: Option<i64>)
        ensures
            r matches Some(n) ==> as_i64_spec(Some(self@)) == Some(n as int),
            r is None ==> as_i64_spec(Some(self@)) is None,
    {
        match self {
            Json::Number(JsonNumber::PosInt(n)) => if *n <= 0x7fff_ffff_ffff_ffffu64 {
                Some(*n as i64)
            } else {
                None
            },
            Json::Number(JsonNumber::NegInt(n)) => Some(*n),
            _ => None,
        }
    }
}

} // verus!
