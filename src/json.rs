//! A plain model of a parsed JSON document, and the lookups the reconciler
//! makes on it. Object members keep the order in which they were parsed.
use vstd::prelude::*;

verus! {

/// A JSON number as the reconciler reads it: its value when that is a
/// non-negative integer that fits in 64 bits, and its shortest decimal text as
/// a floating-point value (`8` for `8.0`, `15.25` for `15.25`).
#[derive(Clone, Debug)]
pub struct JsonNumber {
    pub unsigned: Option<u64>,
    pub text: String,
}

/// A JSON value.
#[derive(Debug)]
pub enum Json {
    Null,
    Bool(bool),
    Number(JsonNumber),
    Str(String),
    Array(Vec<Json>),
    Object(Vec<(String, Json)>),
}

/// The value of the first member named `key`, if any.
pub open spec fn member(entries: Seq<(String, Json)>, key: Seq<char>) -> Option<Json>
    decreases entries.len(),
{
    if entries.len() == 0 {
        None
    } else if entries[0].0@ == key {
        Some(entries[0].1)
    } else {
        member(entries.drop_first(), key)
    }
}

impl Json {
    /// The member `key` of an object; nothing for any other value.
    pub open spec fn field(self, key: Seq<char>) -> Option<Json> {
        match self {
            Json::Object(e) => member(e@, key),
            _ => None,
        }
    }

    /// The integer of a number that is a non-negative 64-bit integer.
    pub open spec fn unsigned(self) -> Option<u64> {
        match self {
            Json::Number(n) => n.unsigned,
            _ => None,
        }
    }

    /// The decimal text of a number.
    pub open spec fn number_text(self) -> Option<Seq<char>> {
        match self {
            Json::Number(n) => Some(n.text@),
            _ => None,
        }
    }

    /// The characters of a string value.
    pub open spec fn text(self) -> Option<Seq<char>> {
        match self {
            Json::Str(s) => Some(s@),
            _ => None,
        }
    }

    /// Looks up the member `key` of an object.
    pub fn get(&self, key: &str) -> (r: Option<&Json>)
        ensures
            r matches Some(v) ==> self.field(key@) == Some(*v),
            r is None ==> self.field(key@) is None,
    {
        match self {
            Json::Object(e) => {
                let k = String::from_str(key);
                let mut i: usize = 0;
                assert(e@.skip(0) =~= e@);
                while i < e.len()
                    invariant
                        i <= e@.len(),
                        k@ == key@,
                        self.field(key@) == member(e@, key@),
                        member(e@, key@) == member(e@.skip(i as int), key@),
                    decreases e@.len() - i,
                {
                    assert(e@.skip(i as int).drop_first() =~= e@.skip(i as int + 1));
                    assert(e@.skip(i as int)[0] == e@[i as int]);
                    if e[i].0 == k {
                        return Some(&e[i].1);
                    }
                    i = i + 1;
                }
                None
            },
            _ => None,
        }
    }

    /// The integer of a non-negative 64-bit integer number.
    pub fn as_u64(&self) -> (r: Option<u64>)
        ensures
            r == self.unsigned(),
    {
        match self {
            Json::Number(n) => n.unsigned,
            _ => None,
        }
    }

    /// The decimal text of a number.
    pub fn as_number_text(&self) -> (r: Option<String>)
        ensures
            r matches Some(s) ==> self.number_text() == Some(s@),
            r is None ==> self.number_text() is None,
    {
        match self {
            Json::Number(n) => Some(n.text.clone()),
            _ => None,
        }
    }

    /// The contents of a string value.
    pub fn as_text(&self) -> (r: Option<&String>)
        ensures
            r matches Some(s) ==> self.text() == Some(s@),
            r is None ==> self.text() is None,
    {
        match self {
            Json::Str(s) => Some(s),
            _ => None,
        }
    }
}

} // verus!
