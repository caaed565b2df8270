//! A JSON value held as plain data (arrays and objects as linked lists,
//! an object's members in order with each key once), and its view as a
//! spec value.

use vstd::prelude::*;
use crate::text::{chars_of, chars_eq};

verus! {

/// A JSON number: a non-negative integer, a negative integer, or another
/// number kept as its text.
#[derive(Debug, PartialEq)]
pub enum JsonNumber {
    PosInt(u64),
    NegInt(i64),
    Float(String),
}

/// A JSON value.
#[derive(Debug, PartialEq)]
pub enum JsonValue {
    Null,
    Bool(bool),
    Number(JsonNumber),
    Str(String),
    Array(JsonList),
    Object(JsonMembers),
}

/// The elements of an array.
#[derive(Debug, PartialEq)]
pub enum JsonList {
    Nil,
    Cons(Box<JsonValue>, Box<JsonList>),
}

/// The members of an object.
#[derive(Debug, PartialEq)]
pub enum JsonMembers {
    Nil,
    Cons(String, Box<JsonValue>, Box<JsonMembers>),
}

/// A JSON value as plain spec data.
pub ghost enum JsonView {
    Null,
    Bool(bool),
    PosInt(u64),
    NegInt(i64),
    Float(Seq<char>),
    Str(Seq<char>),
    Array(Seq<JsonView>),
    Object(Seq<(Seq<char>, JsonView)>),
}

/// The plain view of a value.
pub open spec fn jview(v: JsonValue) -> JsonView
    decreases v,
{
    match v {
        JsonValue::Null => JsonView::Null,
        JsonValue::Bool(b) => JsonView::Bool(b),
        JsonValue::Number(JsonNumber::PosInt(n)) => JsonView::PosInt(n),
        JsonValue::Number(JsonNumber::NegInt(n)) => JsonView::NegInt(n),
        JsonValue::Number(JsonNumber::Float(t)) => JsonView::Float(t@),
        JsonValue::Str(s) => JsonView::Str(s@),
        JsonValue::Array(l) => JsonView::Array(list_view(l)),
        JsonValue::Object(m) => JsonView::Object(members_view(m)),
    }
}

pub open spec fn list_view(l: JsonList) -> Seq<JsonView>
    decreases l,
{
    match l {
        JsonList::Nil => Seq::empty(),
        JsonList::Cons(v, rest) => seq![jview(*v)] + list_view(*rest),
    }
}

pub open spec fn members_view(m: JsonMembers) -> Seq<(Seq<char>, JsonView)>
    decreases m,
{
    match m {
        JsonMembers::Nil => Seq::empty(),
        JsonMembers::Cons(k, v, rest) => seq![(k@, jview(*v))] + members_view(*rest),
    }
}

/// The value of the first member named `k`.
pub open spec fn member(ms: Seq<(Seq<char>, JsonView)>, k: Seq<char>) -> Option<JsonView>
    decreases ms.len(),
{
    if ms.len() == 0 {
        None
    } else if ms[0].0 == k {
        Some(ms[0].1)
    } else {
        member(ms.drop_first(), k)
    }
}

/// `Value::get(k)`: the member named `k` of an object; nothing for any
/// other value.
pub open spec fn get(v: JsonView, k: Seq<char>) -> Option<JsonView> {
    match v {
        JsonView::Object(ms) => member(ms, k),
        _ => None,
    }
}

/// `Value::get(k)` on an optional value.
pub open spec fn get_opt(v: Option<JsonView>, k: Seq<char>) -> Option<JsonView> {
    match v {
        Some(x) => get(x, k),
        None => None,
    }
}

/// `Value::as_str`.
pub open spec fn as_str(v: Option<JsonView>) -> Option<Seq<char>> {
    match v {
        Some(JsonView::Str(s)) => Some(s),
        _ => None,
    }
}

/// `Value::as_i64`: an integer that fits an `i64`.
pub open spec fn as_i64(v: Option<JsonView>) -> Option<i64> {
    match v {
        Some(JsonView::PosInt(n)) => if n <= i64::MAX {
            Some(n as i64)
        } else {
            None
        },
        Some(JsonView::NegInt(n)) => Some(n),
        _ => None,
    }
}

/// `Value::as_u64`: a non-negative integer.
pub open spec fn as_u64(v: Option<JsonView>) -> Option<u64> {
    match v {
        Some(JsonView::PosInt(n)) => Some(n),
        _ => None,
    }
}

/// The JSON number of an `i64`, as `json!` makes it.
pub open spec fn int_view(n: i64) -> JsonView {
    if n < 0 {
        JsonView::NegInt(n)
    } else {
        JsonView::PosInt(n as u64)
    }
}

/// The JSON number of an `i64`.
pub fn int_value(n: i64) -> (r: JsonValue)
    ensures
        jview(r) == int_view(n),
{
    if n < 0 {
        JsonValue::Number(JsonNumber::NegInt(n))
    } else {
        JsonValue::Number(JsonNumber::PosInt(n as u64))
    }
}

/// The member named `key` of `m`, if any.
pub fn member_of<'a>(m: &'a JsonMembers, key: &Vec<char>) -> (r: Option<&'a JsonValue>)
    ensures
        match member(members_view(*m), key@) {
            Some(v) => r matches Some(x) && jview(*x) == v,
            None => r is None,
        },
    decreases m,
{
    match m {
        JsonMembers::Nil => None,
        JsonMembers::Cons(name, v, rest) => {
            let ghost ms = members_view(*m);
            assert(ms.drop_first() =~= members_view(**rest));
            let nc = chars_of(name.as_str());
            if chars_eq(&nc, key) {
                Some(&**v)
            } else {
                member_of(&**rest, key)
            }
        },
    }
}

/// `Value::get(key)`.
pub fn get_member<'a>(v: &'a JsonValue, key: &Vec<char>) -> (r: Option<&'a JsonValue>)
    ensures
        match get(jview(*v), key@) {
            Some(x) => r matches Some(y) && jview(*y) == x,
            None => r is None,
        },
{
    match v {
        JsonValue::Object(m) => member_of(m, key),
        _ => None,
    }
}

pub open spec fn opt_view(v: Option<&JsonValue>) -> Option<JsonView> {
    match v {
        Some(x) => Some(jview(*x)),
        None => None,
    }
}

/// `Value::get(key)` on an optional value.
pub fn get_member_opt<'a>(v: Option<&'a JsonValue>, key: &Vec<char>) -> (r: Option<&'a JsonValue>)
    ensures
        opt_view(r) == get_opt(opt_view(v), key@),
{
    match v {
        Some(x) => get_member(x, key),
        None => None,
    }
}

/// `Value::as_str`, copied out.
pub fn value_as_str(v: Option<&JsonValue>) -> (r: Option<String>)
    ensures
        match as_str(opt_view(v)) {
            Some(s) => r matches Some(t) && t@ == s,
            None => r is None,
        },
{
    match v {
        Some(JsonValue::Str(s)) => Some(s.clone()),
        _ => None,
    }
}

/// `Value::as_i64`.
pub fn value_as_i64(v: Option<&JsonValue>) -> (r: Option<i64>)
    ensures
        r == as_i64(opt_view(v)),
{
    match v {
        Some(JsonValue::Number(JsonNumber::PosInt(n))) => if *n <= 0x7fff_ffff_ffff_ffff {
            Some(*n as i64)
        } else {
            None
        },
        Some(JsonValue::Number(JsonNumber::NegInt(n))) => Some(*n),
        _ => None,
    }
}

/// `Value::as_u64`.
pub fn value_as_u64(v: Option<&JsonValue>) -> (r: Option<u64>)
    ensures
        r == as_u64(opt_view(v)),
{
    match v {
        Some(JsonValue::Number(JsonNumber::PosInt(n))) => Some(*n),
        _ => None,
    }
}

/// The views of some members.
pub open spec fn pairs_view(ms: Seq<(String, JsonValue)>) -> Seq<(Seq<char>, JsonView)> {
    ms.map_values(|p: (String, JsonValue)| (p.0@, jview(p.1)))
}

/// An object of the given members, in order.
pub fn object_of(members: Vec<(String, JsonValue)>) -> (r: JsonValue)
    ensures
        jview(r) == JsonView::Object(pairs_view(members@)),
{
    let mut acc = JsonMembers::Nil;
    let mut ms = members;
    let ghost orig = pairs_view(ms@);
    assert(orig + members_view(acc) =~= orig);
    while ms.len() > 0
        invariant
            orig == pairs_view(ms@) + members_view(acc),
        decreases ms.len(),
    {
        let ghost before = ms@;
        let ghost acc0 = acc;
        let (k, v) = ms.pop().unwrap();
        assert(before == ms@.push((k, v)));
        assert(pairs_view(before) =~= pairs_view(ms@).push((k@, jview(v))));
        acc = JsonMembers::Cons(k, Box::new(v), Box::new(acc));
        assert(members_view(acc) == seq![(k@, jview(v))] + members_view(acc0));
        assert(pairs_view(ms@) + members_view(acc) =~= pairs_view(before) + members_view(acc0));
    }
    assert(pairs_view(ms@) =~= Seq::<(Seq<char>, JsonView)>::empty());
    assert(pairs_view(ms@) + members_view(acc) =~= members_view(acc));
    JsonValue::Object(acc)
}

/// The views of some values.
pub open spec fn values_view(xs: Seq<JsonValue>) -> Seq<JsonView> {
    xs.map_values(|x: JsonValue| jview(x))
}

/// An array of the given elements, in order.
pub fn array_of(items: Vec<JsonValue>) -> (r: JsonValue)
    ensures
        jview(r) == JsonView::Array(values_view(items@)),
{
    let mut acc = JsonList::Nil;
    let mut xs = items;
    let ghost orig = values_view(xs@);
    assert(orig + list_view(acc) =~= orig);
    while xs.len() > 0
        invariant
            orig == values_view(xs@) + list_view(acc),
        decreases xs.len(),
    {
        let ghost before = xs@;
        let ghost acc0 = acc;
        let v = xs.pop().unwrap();
        assert(before == xs@.push(v));
        assert(values_view(before) =~= values_view(xs@).push(jview(v)));
        acc = JsonList::Cons(Box::new(v), Box::new(acc));
        assert(list_view(acc) == seq![jview(v)] + list_view(acc0));
        assert(values_view(xs@) + list_view(acc) =~= values_view(before) + list_view(acc0));
    }
    assert(values_view(xs@) =~= Seq::<JsonView>::empty());
    assert(values_view(xs@) + list_view(acc) =~= list_view(acc));
    JsonValue::Array(acc)
}

/// A copy of a value.
pub fn copy_json(v: &JsonValue) -> (r: JsonValue)
    ensures
        jview(r) == jview(*v),
    decreases v,
{
    match v {
        JsonValue::Null => JsonValue::Null,
        JsonValue::Bool(b) => JsonValue::Bool(*b),
        JsonValue::Number(JsonNumber::PosInt(n)) => JsonValue::Number(JsonNumber::PosInt(*n)),
        JsonValue::Number(JsonNumber::NegInt(n)) => JsonValue::Number(JsonNumber::NegInt(*n)),
        JsonValue::Number(JsonNumber::Float(t)) => JsonValue::Number(JsonNumber::Float(t.clone())),
        JsonValue::Str(t) => JsonValue::Str(t.clone()),
        JsonValue::Array(l) => JsonValue::Array(copy_list(l)),
        JsonValue::Object(m) => JsonValue::Object(copy_members(m)),
    }
}

fn copy_list(l: &JsonList) -> (r: JsonList)
    ensures
        list_view(r) == list_view(*l),
    decreases l,
{
    match l {
        JsonList::Nil => JsonList::Nil,
        JsonList::Cons(v, rest) => JsonList::Cons(Box::new(copy_json(&**v)), Box::new(copy_list(&**rest))),
    }
}

fn copy_members(m: &JsonMembers) -> (r: JsonMembers)
    ensures
        members_view(r) == members_view(*m),
    decreases m,
{
    match m {
        JsonMembers::Nil => JsonMembers::Nil,
        JsonMembers::Cons(k, v, rest) => JsonMembers::Cons(
            k.clone(),
            Box::new(copy_json(&**v)),
            Box::new(copy_members(&**rest)),
        ),
    }
}

} // verus!
