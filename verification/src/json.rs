//! JSON values as the runtime reads them (payloads, definitions, configs),
//! with object member lookup and the compact JSON text of a value.
use vstd::prelude::*;
use crate::text::{chars_of, i64_decimal, push_all, seq_eq, signed_decimal, decimal, u64_decimal};

verus! {

broadcast use vstd::string::group_string_axioms;

/// A JSON number as serde_json holds it: a non-negative integer, a negative
/// integer, or a finite binary64 floating-point value, kept as its IEEE-754
/// bit pattern together with the text serde_json writes for it.
#[derive(Debug, PartialEq)]
pub enum JsonNumber {
    PosInt(u64),
    NegInt(i64),
    Float(u64, String),
}

/// A JSON value. Object members keep their order and are looked up by the
/// first member with the key.
#[derive(Debug, PartialEq)]
pub enum Json {
    Null,
    Bool(bool),
    Number(JsonNumber),
    String(String),
    Array(Vec<Json>),
    Object(Vec<(String, Json)>),
}

/// First member of `entries` with key `k`.
pub open spec fn member(entries: Seq<(String, Json)>, k: Seq<char>) -> Option<Json>
    decreases entries.len(),
{
    if entries.len() == 0 {
        None
    } else if entries[0].0@ == k {
        Some(entries[0].1)
    } else {
        member(entries.drop_first(), k)
    }
}

/// `Value::get` with a string key: the member of an object, `None` otherwise.
pub open spec fn get_spec(v: Json, k: Seq<char>) -> Option<Json> {
    match v {
        Json::Object(entries) => member(entries@, k),
        _ => None,
    }
}

pub open spec fn str_of(v: Option<Json>) -> Option<Seq<char>> {
    match v {
        Some(Json::String(s)) => Some(s@),
        _ => None,
    }
}

pub open spec fn bool_of(v: Option<Json>) -> Option<bool> {
    match v {
        Some(Json::Bool(b)) => Some(b),
        _ => None,
    }
}

/// `Value::as_i64`.
pub open spec fn i64_of(v: Option<Json>) -> Option<int> {
    match v {
        Some(Json::Number(JsonNumber::PosInt(u))) => if u <= i64::MAX {
            Some(u as int)
        } else {
            None
        },
        Some(Json::Number(JsonNumber::NegInt(i))) => Some(i as int),
        _ => None,
    }
}

impl Json {
    /// `Value::get(key)`.
    pub fn get(&self, key: &str) -> (r: Option<&Json>)
        ensures
            match r {
                Some(x) => get_spec(*self, key@) == Some(*x),
                None => get_spec(*self, key@) is None,
            },
    {
        match self {
            Json::Object(entries) => {
                let k = chars_of(key);
                let mut i: usize = 0;
                assert(entries@.skip(0) =~= entries@);
                while i < entries.len()
                    invariant
                        i <= entries.len(),
                        member(entries@, key@) == member(entries@.skip(i as int), key@),
                        k@ == key@,
                        *self == Json::Object(*entries),
                    decreases entries.len() - i,
                {
                    assert(entries@.skip(i as int).drop_first() =~= entries@.skip(i + 1));
                    let name = chars_of(entries[i].0.as_str());
                    if seq_eq(&name, &k) {
                        assert(entries@.skip(i as int)[0] == entries@[i as int]);
                        assert(entries@.skip(i as int).len() > 0);
                        assert(member(entries@.skip(i as int), key@) == Some(entries@[i as int].1));
                        return Some(&entries[i].1);
                    }
                    i += 1;
                }
                None
            },
            _ => None,
        }
    }

    /// `get(key)` followed by `as_str`.
    pub fn get_str(&self, key: &str) -> (r: Option<&String>)
        ensures
            match r {
                Some(s) => str_of(get_spec(*self, key@)) == Some(s@),
                None => str_of(get_spec(*self, key@)) is None,
            },
    {
        match self.get(key) {
            Some(Json::String(s)) => Some(s),
            _ => None,
        }
    }

    /// `get(key)` followed by `as_bool`.
    pub fn get_bool(&self, key: &str) -> (r: Option<bool>)
        ensures
            r == bool_of(get_spec(*self, key@)),
    {
        match self.get(key) {
            Some(Json::Bool(b)) => Some(*b),
            _ => None,
        }
    }

    /// `get(key)` followed by `as_array`.
    pub fn get_array(&self, key: &str) -> (r: Option<&Vec<Json>>)
        ensures
            match r {
                Some(a) => get_spec(*self, key@) == Some(Json::Array(*a)),
                None => !(get_spec(*self, key@) matches Some(Json::Array(_))),
            },
    {
        match self.get(key) {
            Some(Json::Array(a)) => Some(a),
            _ => None,
        }
    }

    /// `get(key)` followed by `as_i64`.
    pub fn get_i64(&self, key: &str) -> (r: Option<i64>)
        ensures
            match r {
                Some(x) => i64_of(get_spec(*self, key@)) == Some(x as int),
                None => i64_of(get_spec(*self, key@)) is None,
            },
    {
        match self.get(key) {
            Some(Json::Number(JsonNumber::PosInt(u))) => {
                if *u <= 9223372036854775807u64 {
                    Some(*u as i64)
                } else {
                    None
                }
            },
            Some(Json::Number(JsonNumber::NegInt(i))) => Some(*i),
            _ => None,
        }
    }

    pub fn is_null(&self) -> (r: bool)
        ensures
            r == (*self is Null),
    {
        match self {
            Json::Null => true,
            _ => false,
        }
    }
}

// ---------------------------------------------------------------------------
// Compact JSON text
// ---------------------------------------------------------------------------

pub open spec fn hex_digit(d: nat) -> char {
    if d < 10 {
        ((d + 48) as u32) as char
    } else {
        ((d + 87) as u32) as char
    }
}

/// How serde_json writes one character inside a string literal.
pub open spec fn escape_char(c: char) -> Seq<char> {
    let u = c as u32;
    if c == '"' {
        seq!['\\', '"']
    } else if c == '\\' {
        seq!['\\', '\\']
    } else if u == 0x08 {
        seq!['\\', 'b']
    } else if u == 0x09 {
        seq!['\\', 't']
    } else if u == 0x0A {
        seq!['\\', 'n']
    } else if u == 0x0C {
        seq!['\\', 'f']
    } else if u == 0x0D {
        seq!['\\', 'r']
    } else if u < 0x20 {
        seq!['\\', 'u', '0', '0', hex_digit((u / 16) as nat), hex_digit((u % 16) as nat)]
    } else {
        seq![c]
    }
}

pub open spec fn escape_seq(s: Seq<char>) -> Seq<char>
    decreases s.len(),
{
    if s.len() == 0 {
        Seq::empty()
    } else {
        escape_seq(s.drop_last()) + escape_char(s.last())
    }
}

/// A JSON string literal.
pub open spec fn quoted(s: Seq<char>) -> Seq<char> {
    seq!['"'] + escape_seq(s) + seq!['"']
}

pub open spec fn number_text(n: JsonNumber) -> Seq<char> {
    match n {
        JsonNumber::PosInt(u) => decimal(u as nat),
        JsonNumber::NegInt(i) => signed_decimal(i as int),
        JsonNumber::Float(_, t) => t@,
    }
}

/// The compact JSON text of a value, as `Value::to_string` writes it.
pub open spec fn json_text(v: Json) -> Seq<char>
    decreases v,
{
    match v {
        Json::Null => "null"@,
        Json::Bool(b) => if b {
            "true"@
        } else {
            "false"@
        },
        Json::Number(n) => number_text(n),
        Json::String(s) => quoted(s@),
        Json::Array(items) => seq!['['] + items_text(items@) + seq![']'],
        Json::Object(entries) => seq!['{'] + members_text(entries@) + seq!['}'],
    }
}

/// Items separated by commas.
pub open spec fn items_text(items: Seq<Json>) -> Seq<char>
    decreases items,
{
    if items.len() == 0 {
        Seq::empty()
    } else if items.len() == 1 {
        json_text(items[0])
    } else {
        items_text(items.drop_last()) + seq![','] + json_text(items.last())
    }
}

/// `"key":value` members separated by commas.
pub open spec fn members_text(entries: Seq<(String, Json)>) -> Seq<char>
    decreases entries,
{
    if entries.len() == 0 {
        Seq::empty()
    } else if entries.len() == 1 {
        quoted(entries[0].0@) + seq![':'] + json_text(entries[0].1)
    } else {
        members_text(entries.drop_last()) + seq![','] + quoted(entries.last().0@) + seq![':']
            + json_text(entries.last().1)
    }
}

fn hex_digit_char(d: u32) -> (c: char)
    requires
        d < 16,
    ensures
        c == hex_digit(d as nat),
{
    if d < 10 {
        crate::text::char_from_ascii(d + 48)
    } else {
        crate::text::char_from_ascii(d + 87)
    }
}

fn push_escaped_char(out: &mut Vec<char>, c: char)
    ensures
        final(out)@ == old(out)@ + escape_char(c),
{
    let u = c as u32;
    let e: Vec<char> = if c == '"' {
        vec!['\\', '"']
    } else if c == '\\' {
        vec!['\\', '\\']
    } else if u == 0x08 {
        vec!['\\', 'b']
    } else if u == 0x09 {
        vec!['\\', 't']
    } else if u == 0x0A {
        vec!['\\', 'n']
    } else if u == 0x0C {
        vec!['\\', 'f']
    } else if u == 0x0D {
        vec!['\\', 'r']
    } else if u < 0x20 {
        vec!['\\', 'u', '0', '0', hex_digit_char(u / 16), hex_digit_char(u % 16)]
    } else {
        vec![c]
    };
    assert(e@ =~= escape_char(c));
    push_all(out, &e);
}

/// Appends a JSON string literal for `s`.
pub fn push_quoted(out: &mut Vec<char>, s: &String)
    ensures
        final(out)@ == old(out)@ + quoted(s@),
{
    let v = chars_of(s.as_str());
    out.push('"');
    let ghost start = out@;
    let mut i: usize = 0;
    while i < v.len()
        invariant
            i <= v.len(),
            out@ == start + escape_seq(v@.take(i as int)),
        decreases v.len() - i,
    {
        assert(v@.take(i + 1).drop_last() =~= v@.take(i as int));
        push_escaped_char(out, v[i]);
        i += 1;
        assert(out@ =~= start + escape_seq(v@.take(i as int)));
    }
    assert(v@.take(v.len() as int) =~= v@);
    out.push('"');
    assert(out@ =~= old(out)@ + quoted(s@));
}

/// Appends the compact JSON text of `v`.
pub fn push_json(out: &mut Vec<char>, v: &Json)
    ensures
        final(out)@ == old(out)@ + json_text(*v),
    decreases *v,
{
    match v {
        Json::Null => {
            crate::text::push_str(out, "null");
        },
        Json::Bool(b) => {
            if *b {
                crate::text::push_str(out, "true");
            } else {
                crate::text::push_str(out, "false");
            }
        },
        Json::Number(n) => {
            let t = match n {
                JsonNumber::PosInt(u) => u64_decimal(*u),
                JsonNumber::NegInt(i) => i64_decimal(*i),
                JsonNumber::Float(_, t) => chars_of(t.as_str()),
            };
            push_all(out, &t);
        },
        Json::String(s) => {
            push_quoted(out, s);
        },
        Json::Array(items) => {
            out.push('[');
            let ghost start = out@;
            let mut i: usize = 0;
            while i < items.len()
                invariant
                    i <= items.len(),
                    out@ == start + items_text(items@.take(i as int)),
                    *v == Json::Array(*items),
                decreases items.len() - i,
            {
                assert(items@.take(i + 1).drop_last() =~= items@.take(i as int));
                if i > 0 {
                    out.push(',');
                }
                proof {
                    assert(decreases_to!(*v => (*v)->Array_0));
                    assert(decreases_to!(*items => items@));
                    assert(decreases_to!(items@ => items@[i as int]));
                }
                push_json(out, &items[i]);
                i += 1;
                assert(out@ =~= start + items_text(items@.take(i as int)));
            }
            assert(items@.take(items.len() as int) =~= items@);
            out.push(']');
            assert(out@ =~= old(out)@ + json_text(*v));
        },
        Json::Object(entries) => {
            out.push('{');
            let ghost start = out@;
            let mut i: usize = 0;
            while i < entries.len()
                invariant
                    i <= entries.len(),
                    out@ == start + members_text(entries@.take(i as int)),
                    *v == Json::Object(*entries),
                decreases entries.len() - i,
            {
                assert(entries@.take(i + 1).drop_last() =~= entries@.take(i as int));
                if i > 0 {
                    out.push(',');
                }
                push_quoted(out, &entries[i].0);
                out.push(':');
                proof {
                    assert(decreases_to!(*v => (*v)->Object_0));
                    assert(decreases_to!(*entries => entries@));
                    assert(decreases_to!(entries@ => entries@[i as int]));
                    assert(decreases_to!(entries@[i as int] => entries@[i as int].1));
                }
                push_json(out, &entries[i].1);
                i += 1;
                assert(out@ =~= start + members_text(entries@.take(i as int)));
            }
            assert(entries@.take(entries.len() as int) =~= entries@);
            out.push('}');
            assert(out@ =~= old(out)@ + json_text(*v));
        },
    }
}

/// `Value::to_string`.
pub fn to_text(v: &Json) -> (r: Vec<char>)
    ensures
        r@ == json_text(*v),
{
    let mut out: Vec<char> = Vec::new();
    push_json(&mut out, v);
    assert(out@ =~= json_text(*v));
    out
}

/// The value of a JSON number, with texts as character sequences.
pub enum NumberV {
    PosInt(u64),
    NegInt(i64),
    Float(u64, Seq<char>),
}

/// Deep view of a JSON value: strings as character sequences.
pub enum JsonV {
    Null,
    Bool(bool),
    Number(NumberV),
    String(Seq<char>),
    Array(Seq<JsonV>),
    Object(Seq<(Seq<char>, JsonV)>),
}

pub open spec fn number_v(n: JsonNumber) -> NumberV {
    match n {
        JsonNumber::PosInt(u) => NumberV::PosInt(u),
        JsonNumber::NegInt(i) => NumberV::NegInt(i),
        JsonNumber::Float(b, t) => NumberV::Float(b, t@),
    }
}

pub open spec fn jv(v: Json) -> JsonV
    decreases v,
{
    match v {
        Json::Null => JsonV::Null,
        Json::Bool(b) => JsonV::Bool(b),
        Json::Number(n) => JsonV::Number(number_v(n)),
        Json::String(s) => JsonV::String(s@),
        Json::Array(items) => JsonV::Array(items_v(items@)),
        Json::Object(entries) => JsonV::Object(members_v(entries@)),
    }
}

pub open spec fn items_v(s: Seq<Json>) -> Seq<JsonV>
    decreases s,
{
    if s.len() == 0 {
        Seq::empty()
    } else {
        items_v(s.drop_last()).push(jv(s.last()))
    }
}

pub open spec fn members_v(s: Seq<(String, Json)>) -> Seq<(Seq<char>, JsonV)>
    decreases s,
{
    if s.len() == 0 {
        Seq::empty()
    } else {
        members_v(s.drop_last()).push((s.last().0@, jv(s.last().1)))
    }
}

pub open spec fn opt_jv(v: Option<Json>) -> Option<JsonV> {
    match v {
        Some(x) => Some(jv(x)),
        None => None,
    }
}

/// A deep copy of a JSON value.
pub fn clone_json(v: &Json) -> (r: Json)
    ensures
        jv(r) == jv(*v),
    decreases *v,
{
    match v {
        Json::Null => Json::Null,
        Json::Bool(b) => Json::Bool(*b),
        Json::Number(JsonNumber::PosInt(u)) => Json::Number(JsonNumber::PosInt(*u)),
        Json::Number(JsonNumber::NegInt(i)) => Json::Number(JsonNumber::NegInt(*i)),
        Json::Number(JsonNumber::Float(b, t)) => Json::Number(JsonNumber::Float(*b, t.clone())),
        Json::String(s) => Json::String(s.clone()),
        Json::Array(items) => {
            let mut out: Vec<Json> = Vec::new();
            let mut i: usize = 0;
            while i < items.len()
                invariant
                    i <= items.len(),
                    out@.len() == i,
                    items_v(out@) == items_v(items@.take(i as int)),
                    *v == Json::Array(*items),
                decreases items.len() - i,
            {
                proof {
                    assert(decreases_to!(*v => (*v)->Array_0));
                    assert(decreases_to!(*items => items@));
                    assert(decreases_to!(items@ => items@[i as int]));
                }
                let x = clone_json(&items[i]);
                let ghost before = out@;
                out.push(x);
                assert(out@.drop_last() =~= before);
                assert(items@.take(i + 1).drop_last() =~= items@.take(i as int));
                i += 1;
            }
            assert(items@.take(items.len() as int) =~= items@);
            Json::Array(out)
        },
        Json::Object(entries) => {
            let mut out: Vec<(String, Json)> = Vec::new();
            let mut i: usize = 0;
            while i < entries.len()
                invariant
                    i <= entries.len(),
                    out@.len() == i,
                    members_v(out@) == members_v(entries@.take(i as int)),
                    *v == Json::Object(*entries),
                decreases entries.len() - i,
            {
                proof {
                    assert(decreases_to!(*v => (*v)->Object_0));
                    assert(decreases_to!(*entries => entries@));
                    assert(decreases_to!(entries@ => entries@[i as int]));
                    assert(decreases_to!(entries@[i as int] => entries@[i as int].1));
                }
                let x = clone_json(&entries[i].1);
                let ghost before = out@;
                out.push((entries[i].0.clone(), x));
                assert(out@.drop_last() =~= before);
                assert(entries@.take(i + 1).drop_last() =~= entries@.take(i as int));
                i += 1;
            }
            assert(entries@.take(entries.len() as int) =~= entries@);
            Json::Object(out)
        },
    }
}

} // verus!
