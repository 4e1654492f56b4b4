use vstd::prelude::*;

verus! {

/// A structured document: the tagged-union shape of a parsed JSON text.
///
/// The updater never commits to a fixed schema; it navigates whatever
/// document the manifest endpoint or the cache file yielded through the
/// fallible accessors below.  Numbers are carried as their decimal text so a
/// document stays exact however it was written.  An object keeps its members
/// in document order; a lookup takes the first member with the requested key.
///
/// The distinguished absent manifest (endpoint unreachable, cache missing or
/// unreadable) is represented by `Null`.
#[derive(Debug, PartialEq)]
pub enum JsonValue {
    Null,
    Bool(bool),
    Number(String),
    Text(String),
    Array(Vec<JsonValue>),
    Object(Vec<(String, JsonValue)>),
}

/// The first member of `pairs` whose key reads `key`, if any.
pub open spec fn spec_obj_get(pairs: Seq<(String, JsonValue)>, key: Seq<char>) -> Option<
    JsonValue,
>
    decreases pairs.len(),
{
    if pairs.len() == 0 {
        None
    } else if pairs[0].0@ == key {
        Some(pairs[0].1)
    } else {
        spec_obj_get(pairs.drop_first(), key)
    }
}

/// Member lookup on a document: defined only for objects, absent otherwise.
pub open spec fn spec_get(v: JsonValue, key: Seq<char>) -> Option<JsonValue> {
    match v {
        JsonValue::Object(pairs) => spec_obj_get(pairs@, key),
        _ => None,
    }
}

/// The elements of a document that is a sequence, absent otherwise.
pub open spec fn spec_as_array(v: JsonValue) -> Option<Seq<JsonValue>> {
    match v {
        JsonValue::Array(items) => Some(items@),
        _ => None,
    }
}

/// The characters of a document that is a string, absent otherwise.
pub open spec fn spec_as_text(v: JsonValue) -> Option<Seq<char>> {
    match v {
        JsonValue::Text(s) => Some(s@),
        _ => None,
    }
}

impl JsonValue {
    /// Fallible member lookup: the first member of an object carrying `key`;
    /// `None` on any other kind of document or when no member matches.
    pub fn get<'a>(&'a self, key: &str) -> (r: Option<&'a JsonValue>)
        ensures
            match r {
                Some(v) => spec_get(*self, key@) == Some(*v),
                None => spec_get(*self, key@) is None,
            },
    {
        let key_string = key.to_owned();
        match self {
            JsonValue::Object(pairs) => {
                let n = pairs.len();
                proof {
                    assert(pairs@.skip(0) =~= pairs@);
                }
                for i in 0..n
                    invariant
                        n == pairs@.len(),
                        key_string@ == key@,
                        spec_get(*self, key@) == spec_obj_get(pairs@, key@),
                        spec_obj_get(pairs@.skip(i as int), key@) == spec_obj_get(
                            pairs@,
                            key@,
                        ),
                {
                    let pair = &pairs[i];
                    proof {
                        assert(pairs@.skip(i as int)[0] == pairs@[i as int]);
                    }
                    if pair.0 == key_string {
                        proof {
                            assert(spec_obj_get(pairs@.skip(i as int), key@) == Some(
                                pairs@.skip(i as int)[0].1,
                            ));
                        }
                        return Some(&pair.1);
                    }
                    proof {
                        assert(pairs@.skip(i as int).drop_first() =~= pairs@.skip(i + 1));
                    }
                }
                proof {
                    assert(pairs@.skip(n as int).len() == 0);
                }
                None
            },
            _ => None,
        }
    }

    /// The elements of this document when it is a sequence.
    pub fn as_array(&self) -> (r: Option<&Vec<JsonValue>>)
        ensures
            match r {
                Some(items) => spec_as_array(*self) == Some(items@),
                None => spec_as_array(*self) is None,
            },
    {
        match self {
            JsonValue::Array(items) => Some(items),
            _ => None,
        }
    }

    /// The text of this document when it is a string.
    pub fn as_text(&self) -> (r: Option<&String>)
        ensures
            match r {
                Some(s) => spec_as_text(*self) == Some(s@),
                None => spec_as_text(*self) is None,
            },
    {
        match self {
            JsonValue::Text(s) => Some(s),
            _ => None,
        }
    }

    /// Whether this document is the absent manifest.
    pub fn is_null(&self) -> (r: bool)
        ensures
            r == (*self is Null),
    {
        match self {
            JsonValue::Null => true,
            _ => false,
        }
    }
}

} // verus!
