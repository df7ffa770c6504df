//! JSON values as the connectors read them out of a reply, and rows of them.
use vstd::prelude::*;

use crate::numeral;
use crate::numeral::{decimal_text, signed_decimal_text, text_of_bool};
use crate::text::same_text;

verus! {

/// A JSON number. One that is not an integer of 64 bits is kept as it is written.
#[derive(Debug)]
pub enum JsonNumber {
    PosInt(u64),
    NegInt(i64),
    Float(String),
}

/// A JSON value. A list and an object carry their compact rendering.
#[derive(Debug)]
pub enum JsonValue {
    Null,
    Bool(bool),
    Number(JsonNumber),
    Text(String),
    Array { items: Vec<JsonValue>, rendering: String },
    Object { rendering: String },
}

impl JsonNumber {
    /// The number as a signed integer of 64 bits, where it is one.
    pub open spec fn integer(self) -> Option<i64> {
        match self {
            JsonNumber::PosInt(n) => if n <= i64::MAX {
                Some(n as i64)
            } else {
                None
            },
            JsonNumber::NegInt(n) => Some(n),
            JsonNumber::Float(_) => None,
        }
    }

    pub fn as_i64(&self) -> (r: Option<i64>)
        ensures
            r == self.integer(),
    {
        match self {
            JsonNumber::PosInt(n) => if *n <= i64::MAX as u64 {
                Some(*n as i64)
            } else {
                None
            },
            JsonNumber::NegInt(n) => Some(*n),
            JsonNumber::Float(_) => None,
        }
    }

    /// The number as it is written.
    pub open spec fn written(self) -> Seq<char> {
        match self {
            JsonNumber::PosInt(n) => numeral::decimal(n as nat),
            JsonNumber::NegInt(n) => numeral::signed_decimal(n as int),
            JsonNumber::Float(s) => s@,
        }
    }

    pub fn text(&self) -> (r: String)
        ensures
            r@ == self.written(),
    {
        match self {
            JsonNumber::PosInt(n) => decimal_text(*n),
            JsonNumber::NegInt(n) => signed_decimal_text(*n),
            JsonNumber::Float(s) => s.clone(),
        }
    }
}

impl JsonValue {
    pub fn is_null(&self) -> (r: bool)
        ensures
            r == (self is Null),
    {
        matches!(self, JsonValue::Null)
    }

    /// The value as a signed integer of 64 bits, where it is one.
    pub open spec fn integer(self) -> Option<i64> {
        match self {
            JsonValue::Number(n) => n.integer(),
            _ => None,
        }
    }

    pub fn as_i64(&self) -> (r: Option<i64>)
        ensures
            r == self.integer(),
    {
        match self {
            JsonValue::Number(n) => n.as_i64(),
            _ => None,
        }
    }

    /// The number that the value is, as it is written, where it is one.
    pub open spec fn number(self) -> Option<Seq<char>> {
        match self {
            JsonValue::Number(n) => Some(n.written()),
            _ => None,
        }
    }

    pub fn as_number(&self) -> (r: Option<String>)
        ensures
            crate::text::text_of(r) == self.number(),
    {
        match self {
            JsonValue::Number(n) => Some(n.text()),
            _ => None,
        }
    }

    /// The truth value that the value is, where it is one.
    pub open spec fn truth(self) -> Option<bool> {
        match self {
            JsonValue::Bool(b) => Some(b),
            _ => None,
        }
    }

    pub fn as_bool(&self) -> (r: Option<bool>)
        ensures
            r == self.truth(),
    {
        match self {
            JsonValue::Bool(b) => Some(*b),
            _ => None,
        }
    }

    /// The text that the value is, where it is one.
    pub open spec fn string(self) -> Option<Seq<char>> {
        match self {
            JsonValue::Text(s) => Some(s@),
            _ => None,
        }
    }

    pub fn as_str(&self) -> (r: Option<&str>)
        ensures
            match r {
                Some(s) => self.string() == Some(s@),
                None => self.string() is None,
            },
    {
        match self {
            JsonValue::Text(s) => Some(s.as_str()),
            _ => None,
        }
    }

    /// The value as a text: a text as it stands, nothing for null, and any other
    /// value in its compact rendering.
    pub open spec fn shown(self) -> Option<Seq<char>> {
        match self {
            JsonValue::Null => None,
            JsonValue::Bool(b) => Some(numeral::bool_text(b)),
            JsonValue::Number(n) => Some(n.written()),
            JsonValue::Text(s) => Some(s@),
            JsonValue::Array { items, rendering } => Some(rendering@),
            JsonValue::Object { rendering } => Some(rendering@),
        }
    }

    pub fn to_text(&self) -> (r: Option<String>)
        ensures
            crate::text::text_of(r) == self.shown(),
    {
        match self {
            JsonValue::Null => None,
            JsonValue::Bool(b) => Some(text_of_bool(*b)),
            JsonValue::Number(n) => Some(n.text()),
            JsonValue::Text(s) => Some(s.clone()),
            JsonValue::Array { items, rendering } => Some(rendering.clone()),
            JsonValue::Object { rendering } => Some(rendering.clone()),
        }
    }
}

/// The contents of a list of entries: of several entries of one name the last
/// counts.
pub open spec fn contents(entries: Seq<(String, JsonValue)>) -> Map<Seq<char>, JsonValue>
    decreases entries.len(),
{
    if entries.len() == 0 {
        Map::empty()
    } else {
        contents(entries.drop_last()).insert(entries.last().0@, entries.last().1)
    }
}

/// A row: values by the names of their columns.
#[derive(Debug)]
pub struct Row {
    entries: Vec<(String, JsonValue)>,
}

impl View for Row {
    type V = Map<Seq<char>, JsonValue>;

    closed spec fn view(&self) -> Map<Seq<char>, JsonValue> {
        contents(self.entries@)
    }
}

/// The value that a row holds under a name.
pub open spec fn value(row: Map<Seq<char>, JsonValue>, name: Seq<char>) -> Option<JsonValue> {
    if row.dom().contains(name) {
        Some(row[name])
    } else {
        None
    }
}

impl Row {
    /// A row without values.
    pub fn new() -> (r: Self)
        ensures
            r@ == Map::<Seq<char>, JsonValue>::empty(),
    {
        Row { entries: Vec::new() }
    }

    /// Puts a value under a name, in place of the one that stood there.
    pub fn insert(&mut self, name: String, value: JsonValue)
        ensures
            final(self)@ == old(self)@.insert(name@, value),
    {
        let ghost before = self.entries@;
        self.entries.push((name, value));
        proof {
            assert(self.entries@.drop_last() == before);
        }
    }

    /// The value under a name.
    pub fn get(&self, name: &str) -> (r: Option<&JsonValue>)
        ensures
            match r {
                Some(v) => value(self@, name@) == Some(*v),
                None => value(self@, name@) is None,
            },
    {
        let mut i: usize = self.entries.len();
        assert(self.entries@.take(i as int) == self.entries@);
        while i > 0
            invariant
                i <= self.entries.len(),
                value(self@, name@) == value(contents(self.entries@.take(i as int)), name@),
            decreases i,
        {
            i -= 1;
            assert(self.entries@.take(i + 1).drop_last() == self.entries@.take(i as int));
            if same_text(self.entries[i].0.as_str(), name) {
                return Some(&self.entries[i].1);
            }
        }
        None
    }
}

/// One entry more is looked at: it is kept unless it has the name.
proof fn lemma_without(entries: Seq<(String, JsonValue)>, kept: Seq<(String, JsonValue)>, k: int, name: Seq<char>)
    requires
        0 <= k < entries.len(),
        contents(kept) == contents(entries.take(k)).remove(name),
    ensures
        entries[k].0@ == name ==> contents(kept) == contents(entries.take(k + 1)).remove(name),
        entries[k].0@ != name ==> contents(kept.push(entries[k])) == contents(
            entries.take(k + 1),
        ).remove(name),
{
    assert(entries.take(k + 1).drop_last() == entries.take(k));
    assert(kept.push(entries[k]).drop_last() == kept);
    let front = contents(entries.take(k));
    let e = entries[k];
    if e.0@ == name {
        assert(front.insert(e.0@, e.1).remove(name) =~= front.remove(name));
    } else {
        assert(front.insert(e.0@, e.1).remove(name) =~= front.remove(name).insert(e.0@, e.1));
    }
}

impl Row {
    /// The row without the value under a name.
    pub fn without(self, name: &str) -> (r: Row)
        ensures
            r@ == self@.remove(name@),
    {
        let ghost all = self.entries@;
        let mut kept: Vec<(String, JsonValue)> = Vec::new();
        let entries = self.entries;
        assert(contents(all.take(0)).remove(name@) =~= contents(kept@));
        for e in it: entries
            invariant
                it.seq() == all,
                contents(kept@) == contents(all.take(it.index() as int)).remove(name@),
        {
            proof {
                lemma_without(all, kept@, it.index() as int, name@);
            }
            if !same_text(e.0.as_str(), name) {
                kept.push(e);
            }
        }
        assert(all.take(all.len() as int) == all);
        Row { entries: kept }
    }
}

} // verus!
