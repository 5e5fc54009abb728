//! JSON and TOML values as plain data, with the conversion from a TOML value to a
//! JSON value and the setting of an object field.

use vstd::prelude::*;

verus! {

/// A JSON number: a non-negative integer, a negative integer, or a finite
/// floating-point number held by its IEEE-754 bit pattern.
#[derive(Debug, Clone, Copy, PartialEq, Eq, Structural)]
pub enum JsonNumber {
    PosInt(u64),
    NegInt(i64),
    Float(u64),
}

/// A JSON value. Object entries keep their order; a key is looked up by its
/// first entry.
#[derive(Debug)]
pub enum JsonValue {
    Null,
    Bool(bool),
    Number(JsonNumber),
    String(String),
    Array(Vec<JsonValue>),
    Object(Vec<(String, JsonValue)>),
}

/// The mathematical view of a JSON value.
pub enum JsonView {
    Null,
    Bool(bool),
    Number(JsonNumber),
    String(Seq<char>),
    Array(Seq<JsonView>),
    Object(Seq<(Seq<char>, JsonView)>),
}

/// A TOML value. A float is held by its IEEE-754 bit pattern, a date-time by its
/// text.
#[derive(Debug)]
pub enum TomlValue {
    String(String),
    Integer(i64),
    Float(u64),
    Boolean(bool),
    Datetime(String),
    Array(Vec<TomlValue>),
    Table(Vec<(String, TomlValue)>),
}

/// The mathematical view of a TOML value.
pub enum TomlView {
    String(Seq<char>),
    Integer(i64),
    Float(u64),
    Boolean(bool),
    Datetime(Seq<char>),
    Array(Seq<TomlView>),
    Table(Seq<(Seq<char>, TomlView)>),
}

pub open spec fn json_view(v: JsonValue) -> JsonView
    decreases v,
{
    match v {
        JsonValue::Null => JsonView::Null,
        JsonValue::Bool(b) => JsonView::Bool(b),
        JsonValue::Number(n) => JsonView::Number(n),
        JsonValue::String(s) => JsonView::String(s@),
        JsonValue::Array(items) => JsonView::Array(
            Seq::new(
                items@.len(),
                |i: int|
                    {
                        if 0 <= i < items@.len() {
                            proof {
                                assert(decreases_to!(items => items@[i]));
                            }
                            json_view(items@[i])
                        } else {
                            JsonView::Null
                        }
                    },
            ),
        ),
        JsonValue::Object(es) => JsonView::Object(
            Seq::new(
                es@.len(),
                |i: int|
                    {
                        if 0 <= i < es@.len() {
                            proof {
                                assert(decreases_to!(es => es@[i]));
                                assert(decreases_to!(es@[i] => es@[i].1));
                            }
                            (es@[i].0@, json_view(es@[i].1))
                        } else {
                            (Seq::empty(), JsonView::Null)
                        }
                    },
            ),
        ),
    }
}

pub open spec fn toml_view(v: TomlValue) -> TomlView
    decreases v,
{
    match v {
        TomlValue::String(s) => TomlView::String(s@),
        TomlValue::Integer(i) => TomlView::Integer(i),
        TomlValue::Float(f) => TomlView::Float(f),
        TomlValue::Boolean(b) => TomlView::Boolean(b),
        TomlValue::Datetime(s) => TomlView::Datetime(s@),
        TomlValue::Array(items) => TomlView::Array(
            Seq::new(
                items@.len(),
                |i: int|
                    {
                        if 0 <= i < items@.len() {
                            proof {
                                assert(decreases_to!(items => items@[i]));
                            }
                            toml_view(items@[i])
                        } else {
                            TomlView::Boolean(false)
                        }
                    },
            ),
        ),
        TomlValue::Table(es) => TomlView::Table(
            Seq::new(
                es@.len(),
                |i: int|
                    {
                        if 0 <= i < es@.len() {
                            proof {
                                assert(decreases_to!(es => es@[i]));
                                assert(decreases_to!(es@[i] => es@[i].1));
                            }
                            (es@[i].0@, toml_view(es@[i].1))
                        } else {
                            (Seq::empty(), TomlView::Boolean(false))
                        }
                    },
            ),
        ),
    }
}

/// The view of an object is the views of its entries.
pub proof fn lemma_object_view(es: Vec<(String, JsonValue)>)
    ensures
        JsonValue::Object(es)@ == JsonView::Object(
            Seq::new(es@.len(), |i: int| (es@[i].0@, es@[i].1@)),
        ),
{
    assert(JsonValue::Object(es)@->Object_0 =~= Seq::new(es@.len(), |i: int| (es@[i].0@, es@[i].1@)));
}

/// The view of an array is the views of its items.
pub proof fn lemma_array_view(items: Vec<JsonValue>)
    ensures
        JsonValue::Array(items)@ == JsonView::Array(Seq::new(items@.len(), |i: int| items@[i]@)),
{
    assert(JsonValue::Array(items)@->Array_0 =~= Seq::new(items@.len(), |i: int| items@[i]@));
}

impl View for JsonValue {
    type V = JsonView;

    open spec fn view(&self) -> JsonView {
        json_view(*self)
    }
}

impl View for TomlValue {
    type V = TomlView;

    open spec fn view(&self) -> TomlView {
        toml_view(*self)
    }
}

/// Whether the IEEE-754 double with bit pattern `bits` is finite (its exponent
/// field is not all ones).
pub open spec fn finite_bits(bits: u64) -> bool {
    (bits >> 52u64) & 0x7ffu64 != 0x7ffu64
}

/// Decides `finite_bits`.
pub fn is_finite_bits(bits: u64) -> (r: bool)
    ensures
        r == finite_bits(bits),
{
    (bits >> 52u64) & 0x7ffu64 != 0x7ffu64
}

/// The JSON number for a signed integer: non-negative ones are unsigned.
pub open spec fn int_number(i: i64) -> JsonNumber {
    if i < 0 {
        JsonNumber::NegInt(i)
    } else {
        JsonNumber::PosInt(i as u64)
    }
}

/// The JSON value that a TOML value converts to: strings and date-times become
/// strings, integers and finite floats numbers, non-finite floats null, arrays
/// arrays and tables objects, element by element.
pub open spec fn toml_json(t: TomlView) -> JsonView
    decreases t,
{
    match t {
        TomlView::String(s) => JsonView::String(s),
        TomlView::Integer(i) => JsonView::Number(int_number(i)),
        TomlView::Float(f) => if finite_bits(f) {
            JsonView::Number(JsonNumber::Float(f))
        } else {
            JsonView::Null
        },
        TomlView::Boolean(b) => JsonView::Bool(b),
        TomlView::Datetime(s) => JsonView::String(s),
        TomlView::Array(items) => JsonView::Array(
            Seq::new(
                items.len(),
                |i: int|
                    {
                        if 0 <= i < items.len() {
                            proof {
                                assert(decreases_to!(items => items[i]));
                            }
                            toml_json(items[i])
                        } else {
                            JsonView::Null
                        }
                    },
            ),
        ),
        TomlView::Table(es) => JsonView::Object(
            Seq::new(
                es.len(),
                |i: int|
                    {
                        if 0 <= i < es.len() {
                            proof {
                                assert(decreases_to!(es => es[i]));
                                assert(decreases_to!(es[i] => es[i].1));
                            }
                            (es[i].0, toml_json(es[i].1))
                        } else {
                            (Seq::empty(), JsonView::Null)
                        }
                    },
            ),
        ),
    }
}

/// Converts a TOML value to the corresponding JSON value.
pub fn toml_to_json(val: &TomlValue) -> (out: JsonValue)
    ensures
        out@ == toml_json(val@),
    decreases val,
{
    match val {
        TomlValue::String(s) => {
            let c = s.clone();
            let r = JsonValue::String(c);
            r
        },
        TomlValue::Integer(i) => {
            let n = if *i < 0 {
                JsonNumber::NegInt(*i)
            } else {
                JsonNumber::PosInt(*i as u64)
            };
            JsonValue::Number(n)
        },
        TomlValue::Float(f) => {
            if is_finite_bits(*f) {
                JsonValue::Number(JsonNumber::Float(*f))
            } else {
                JsonValue::Null
            }
        },
        TomlValue::Boolean(b) => JsonValue::Bool(*b),
        TomlValue::Datetime(s) => JsonValue::String(s.clone()),
        TomlValue::Array(items) => {
            let mut out: Vec<JsonValue> = Vec::new();
            let mut i: usize = 0;
            while i < items.len()
                invariant
                    i <= items@.len(),
                    *val == TomlValue::Array(*items),
                    out@.len() == i,
                    forall|j: int| 0 <= j < i ==> (#[trigger] out@[j])@ == toml_json(items@[j]@),
                decreases items.len() - i,
            {
                proof {
                    assert(decreases_to!(*val => (*val)->Array_0));
                    assert(decreases_to!(*items => items@));
                    assert(decreases_to!(items@ => items@[i as int]));
                }
                let item = toml_to_json(&items[i]);
                out.push(item);
                i = i + 1;
            }
            let r = JsonValue::Array(out);
            proof {
                let tis = val@->Array_0;
                let expected = toml_json(val@);
                assert(tis.len() == items@.len());
                assert forall|j: int| 0 <= j < tis.len() implies tis[j] == items@[j]@ by {}
                assert(r@->Array_0 =~= expected->Array_0);
            }
            r
        },
        TomlValue::Table(es) => {
            let mut out: Vec<(String, JsonValue)> = Vec::new();
            let mut i: usize = 0;
            while i < es.len()
                invariant
                    i <= es@.len(),
                    *val == TomlValue::Table(*es),
                    out@.len() == i,
                    forall|j: int|
                        0 <= j < i ==> (#[trigger] out@[j]).0@ == es@[j].0@ && out@[j].1@ == toml_json(
                            es@[j].1@,
                        ),
                decreases es.len() - i,
            {
                proof {
                    assert(decreases_to!(*val => (*val)->Table_0));
                    assert(decreases_to!(*es => es@));
                    assert(decreases_to!(es@ => es@[i as int]));
                    assert(decreases_to!(es@[i as int] => es@[i as int].1));
                }
                let k = es[i].0.clone();
                let item = toml_to_json(&es[i].1);
                out.push((k, item));
                i = i + 1;
            }
            let r = JsonValue::Object(out);
            proof {
                let tes = val@->Table_0;
                let expected = toml_json(val@);
                assert(tes.len() == es@.len());
                assert forall|j: int| 0 <= j < tes.len() implies tes[j] == (es@[j].0@, es@[j].1@) by {}
                assert(r@->Object_0 =~= expected->Object_0);
            }
            r
        },
    }
}

/// `i` is the position of the first entry of `es` whose key is `k`.
pub open spec fn first_key_at(es: Seq<(Seq<char>, JsonView)>, k: Seq<char>, i: int) -> bool {
    &&& 0 <= i < es.len()
    &&& es[i].0 == k
    &&& forall|j: int| 0 <= j < i ==> (#[trigger] es[j]).0 != k
}

/// Some entry of `es` has key `k`.
pub open spec fn has_field(es: Seq<(Seq<char>, JsonView)>, k: Seq<char>) -> bool {
    exists|i: int| 0 <= i < es.len() && (#[trigger] es[i]).0 == k
}

/// The position of the first entry with key `k` (meaningful when `has_field(es, k)`).
pub open spec fn first_key_index(es: Seq<(Seq<char>, JsonView)>, k: Seq<char>) -> int {
    choose|i: int| first_key_at(es, k, i)
}

/// The field `k` of an object: the value of its first entry with that key.
/// Other values have no fields.
pub open spec fn json_field(v: JsonView, k: Seq<char>) -> Option<JsonView> {
    match v {
        JsonView::Object(es) => if has_field(es, k) {
            Some(es[first_key_index(es, k)].1)
        } else {
            None
        },
        _ => None,
    }
}

/// Whether a field can be set on `v`: only objects and null take fields.
pub open spec fn takes_fields(v: JsonView) -> bool {
    v is Null || v is Object
}

/// `v` with field `k` set to `x`: null becomes the object holding just that field;
/// in an object the first entry with key `k` gets the value `x`, or an entry is
/// appended when there is none.
pub open spec fn json_set(v: JsonView, k: Seq<char>, x: JsonView) -> JsonView {
    match v {
        JsonView::Null => JsonView::Object(seq![(k, x)]),
        JsonView::Object(es) => if has_field(es, k) {
            JsonView::Object(es.update(first_key_index(es, k), (k, x)))
        } else {
            JsonView::Object(es.push((k, x)))
        },
        _ => v,
    }
}

/// An entry with key `k` at position `w` has a first such entry at or before it.
proof fn lemma_first_key_below(es: Seq<(Seq<char>, JsonView)>, k: Seq<char>, w: int)
    requires
        0 <= w < es.len(),
        es[w].0 == k,
    ensures
        exists|i: int| i <= w && first_key_at(es, k, i),
    decreases w,
{
    if exists|j: int| 0 <= j < w && (#[trigger] es[j]).0 == k {
        let j = choose|j: int| 0 <= j < w && (#[trigger] es[j]).0 == k;
        lemma_first_key_below(es, k, j);
    } else {
        assert(first_key_at(es, k, w));
    }
}

/// Among the entries with key `k`, there is a first one.
pub proof fn lemma_first_key_exists(es: Seq<(Seq<char>, JsonView)>, k: Seq<char>)
    requires
        has_field(es, k),
    ensures
        first_key_at(es, k, first_key_index(es, k)),
{
    let w = choose|i: int| 0 <= i < es.len() && (#[trigger] es[i]).0 == k;
    lemma_first_key_below(es, k, w);
}

/// The first entry with a given key is unique.
pub proof fn lemma_first_key_unique(es: Seq<(Seq<char>, JsonView)>, k: Seq<char>, i: int)
    requires
        first_key_at(es, k, i),
    ensures
        has_field(es, k),
        first_key_index(es, k) == i,
{
    assert(has_field(es, k));
    lemma_first_key_exists(es, k);
    let c = first_key_index(es, k);
    if c < i {
        assert(es[c].0 != k);
    } else if c > i {
        assert(es[i].0 != k);
    }
}

/// Reading a field back after setting it gives the value that was set, and
/// setting a field leaves every other field as it was.
pub proof fn lemma_set_then_field(v: JsonView, k: Seq<char>, x: JsonView, other: Seq<char>)
    requires
        takes_fields(v),
    ensures
        json_field(json_set(v, k, x), k) == Some(x),
        other != k ==> json_field(json_set(v, k, x), other) == json_field(v, other),
{
    match v {
        JsonView::Null => {
            let es = seq![(k, x)];
            assert(first_key_at(es, k, 0));
            lemma_first_key_unique(es, k, 0);
            if other != k {
                assert(!has_field(es, other));
            }
        },
        JsonView::Object(es) => {
            if has_field(es, k) {
                lemma_first_key_exists(es, k);
                let i = first_key_index(es, k);
                let es2 = es.update(i, (k, x));
                assert(first_key_at(es2, k, i));
                lemma_first_key_unique(es2, k, i);
                if other != k {
                    assert forall|j: int| 0 <= j < es.len() implies (#[trigger] es2[j]).0 == other <==> es[j].0 == other by {}
                    if has_field(es, other) {
                        lemma_first_key_exists(es, other);
                        let p = first_key_index(es, other);
                        assert(first_key_at(es2, other, p));
                        lemma_first_key_unique(es2, other, p);
                    } else {
                        assert(!has_field(es2, other));
                    }
                }
            } else {
                let es2 = es.push((k, x));
                let n = es.len() as int;
                assert forall|j: int| 0 <= j < n implies (#[trigger] es2[j]).0 != k by {
                    assert(es2[j] == es[j]);
                }
                assert(first_key_at(es2, k, n));
                lemma_first_key_unique(es2, k, n);
                if other != k {
                    if has_field(es, other) {
                        lemma_first_key_exists(es, other);
                        let p = first_key_index(es, other);
                        assert(first_key_at(es2, other, p));
                        lemma_first_key_unique(es2, other, p);
                    } else {
                        assert forall|j: int| 0 <= j < es2.len() implies (#[trigger] es2[j]).0 != other by {
                            if j < n {
                                assert(es2[j] == es[j]);
                            }
                        }
                    }
                }
            }
        },
        _ => {},
    }
}

/// Sets field `key` of `v` to `x`, as indexing a JSON value by key for
/// assignment does.
pub fn json_set_field(v: JsonValue, key: String, x: JsonValue) -> (out: JsonValue)
    requires
        takes_fields(v@),
    ensures
        out@ == json_set(v@, key@, x@),
{
    let ghost vv = v@;
    let ghost kv = key@;
    let ghost xv = x@;
    match v {
        JsonValue::Object(mut es) => {
            let ghost old_es = es@;
            let ghost ves = vv->Object_0;
            assert(ves.len() == old_es.len());
            assert forall|j: int| 0 <= j < ves.len() implies (#[trigger] ves[j]) == (old_es[j].0@, old_es[j].1@) by {}
            let mut i: usize = 0;
            while i < es.len()
                invariant
                    es@ == old_es,
                    kv == key@,
                    xv == x@,
                    vv == JsonView::Object(ves),
                    vv == v@,
                    i <= es@.len(),
                    ves.len() == old_es.len(),
                    forall|j: int| 0 <= j < ves.len() ==> (#[trigger] ves[j]) == (old_es[j].0@, old_es[j].1@),
                    forall|j: int| 0 <= j < i ==> (#[trigger] ves[j]).0 != kv,
                decreases es.len() - i,
            {
                assert(ves[i as int] == (old_es[i as int].0@, old_es[i as int].1@));
                let same = es[i].0 == key;
                assert(same == (es@[i as int].0@ == key@));

                if same {
                    proof {
                        assert(first_key_at(ves, kv, i as int));
                        lemma_first_key_unique(ves, kv, i as int);
                    }
                    es.set(i, (key, x));
                    let r = JsonValue::Object(es);
                    proof {
                        assert(r@->Object_0 =~= ves.update(i as int, (kv, xv)));
                    }
                    return r;
                }
                i = i + 1;
            }
            proof {
                assert(!has_field(ves, kv));
            }
            es.push((key, x));
            let r = JsonValue::Object(es);
            proof {
                assert(r@->Object_0 =~= ves.push((kv, xv)));
            }
            r
        },
        _ => {
            let mut es: Vec<(String, JsonValue)> = Vec::new();
            es.push((key, x));
            let r = JsonValue::Object(es);
            proof {
                assert(r@->Object_0 =~= seq![(kv, xv)]);
            }
            r
        },
    }
}

/// A deep copy of a JSON value.
pub fn json_clone(v: &JsonValue) -> (out: JsonValue)
    ensures
        out@ == v@,
    decreases v,
{
    match v {
        JsonValue::Null => JsonValue::Null,
        JsonValue::Bool(b) => JsonValue::Bool(*b),
        JsonValue::Number(n) => JsonValue::Number(*n),
        JsonValue::String(s) => JsonValue::String(s.clone()),
        JsonValue::Array(items) => {
            let mut out: Vec<JsonValue> = Vec::new();
            let mut i: usize = 0;
            while i < items.len()
                invariant
                    i <= items@.len(),
                    *v == JsonValue::Array(*items),
                    out@.len() == i,
                    forall|j: int| 0 <= j < i ==> (#[trigger] out@[j])@ == items@[j]@,
                decreases items.len() - i,
            {
                proof {
                    assert(decreases_to!(*v => (*v)->Array_0));
                    assert(decreases_to!(*items => items@));
                    assert(decreases_to!(items@ => items@[i as int]));
                }
                let item = json_clone(&items[i]);
                out.push(item);
                i = i + 1;
            }
            let r = JsonValue::Array(out);
            proof {
                assert(r@->Array_0 =~= v@->Array_0);
            }
            r
        },
        JsonValue::Object(es) => {
            let mut out: Vec<(String, JsonValue)> = Vec::new();
            let mut i: usize = 0;
            while i < es.len()
                invariant
                    i <= es@.len(),
                    *v == JsonValue::Object(*es),
                    out@.len() == i,
                    forall|j: int|
                        0 <= j < i ==> (#[trigger] out@[j]).0@ == es@[j].0@ && out@[j].1@ == es@[j].1@,
                decreases es.len() - i,
            {
                proof {
                    assert(decreases_to!(*v => (*v)->Object_0));
                    assert(decreases_to!(*es => es@));
                    assert(decreases_to!(es@ => es@[i as int]));
                    assert(decreases_to!(es@[i as int] => es@[i as int].1));
                }
                let k = es[i].0.clone();
                let item = json_clone(&es[i].1);
                out.push((k, item));
                i = i + 1;
            }
            let r = JsonValue::Object(out);
            proof {
                assert(r@->Object_0 =~= v@->Object_0);
            }
            r
        },
    }
}

impl Clone for JsonValue {
    fn clone(&self) -> (out: Self)
        ensures
            out@ == self@,
    {
        json_clone(self)
    }
}

/// TOML scalars convert as JSON does them: a float whose IEEE-754 exponent field
/// (bits 52 to 62) is not all ones, whatever its sign, becomes the JSON number
/// with the same bits, and one whose exponent field is all ones (an infinity or
/// NaN) becomes null; a non-negative integer becomes an unsigned number and a
/// negative one a signed number of the same value; strings and date-time texts
/// become strings with the same characters, and booleans booleans.
pub proof fn lemma_toml_scalars_convert(f: u64, n: i64, s: Seq<char>, b: bool)
    ensures
        (f >> 52u64) & 0x7ffu64 != 0x7ffu64 ==> toml_json(TomlView::Float(f)) == JsonView::Number(
            JsonNumber::Float(f),
        ),
        (f >> 52u64) & 0x7ffu64 == 0x7ffu64 ==> toml_json(TomlView::Float(f)) == JsonView::Null,
        n >= 0 ==> toml_json(TomlView::Integer(n)) == JsonView::Number(JsonNumber::PosInt(n as u64)),
        n < 0 ==> toml_json(TomlView::Integer(n)) == JsonView::Number(JsonNumber::NegInt(n)),
        toml_json(TomlView::String(s)) == JsonView::String(s),
        toml_json(TomlView::Datetime(s)) == JsonView::String(s),
        toml_json(TomlView::Boolean(b)) == JsonView::Bool(b),
{
}

/// Arrays and tables convert element by element: an array becomes an array of
/// the same length whose items are the converted items, and a table an object
/// with the same keys in the same order whose values are the converted values.
pub proof fn lemma_toml_containers_convert(items: Seq<TomlView>, es: Seq<(Seq<char>, TomlView)>)
    ensures
        toml_json(TomlView::Array(items)) is Array,
        toml_json(TomlView::Array(items))->Array_0.len() == items.len(),
        forall|j: int| 0 <= j < items.len() ==> #[trigger] toml_json(TomlView::Array(items))->Array_0[j] == toml_json(items[j]),
        toml_json(TomlView::Table(es)) is Object,
        toml_json(TomlView::Table(es))->Object_0.len() == es.len(),
        forall|j: int|
            0 <= j < es.len() ==> #[trigger] toml_json(TomlView::Table(es))->Object_0[j] == (es[j].0, toml_json(es[j].1)),
{
}

} // verus!
