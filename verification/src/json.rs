//! JSON values as the eXist-db endpoints and the editor send them, and the
//! accessors that the rest of the library reads them with.
use vstd::prelude::*;

verus! {

/// A JSON value. Objects keep their members in order; arrays, objects and
/// numbers also carry their compact JSON text, which is what the value reads
/// as when it is shown to the user.
pub enum Json {
    Null,
    Bool(bool),
    Number { as_u64: Option<u64>, rendered: String },
    Str(String),
    Array { items: Vec<Json>, rendered: String },
    Object { members: Vec<(String, Json)>, rendered: String },
}

/// The value of the first member named `key`, if any.
pub open spec fn member_lookup(members: Seq<(String, Json)>, key: Seq<char>) -> Option<Json>
    decreases members.len(),
{
    if members.len() == 0 {
        None
    } else if members[0].0@ == key {
        Some(members[0].1)
    } else {
        member_lookup(members.drop_first(), key)
    }
}

/// `value.get(key)`: the member `key` of an object; nothing for other values.
pub open spec fn json_get(j: Json, key: Seq<char>) -> Option<Json> {
    match j {
        Json::Object { members, .. } => member_lookup(members@, key),
        _ => None,
    }
}

/// `value[key]`: the member `key` of an object, `null` when there is none.
pub open spec fn json_index(j: Json, key: Seq<char>) -> Json {
    match json_get(j, key) {
        Some(v) => v,
        None => Json::Null,
    }
}

/// `value.as_str()`.
pub open spec fn json_as_str(j: Json) -> Option<Seq<char>> {
    match j {
        Json::Str(s) => Some(s@),
        _ => None,
    }
}

/// `value.as_u64()`.
pub open spec fn json_as_u64(j: Json) -> Option<u64> {
    match j {
        Json::Number { as_u64, .. } => as_u64,
        _ => None,
    }
}

/// `value.as_array()`.
pub open spec fn json_as_array(j: Json) -> Option<Seq<Json>> {
    match j {
        Json::Array { items, .. } => Some(items@),
        _ => None,
    }
}

/// The text a value reads as when shown: the compact JSON text of a value
/// that is not a string (a string is shown as its own text).
pub open spec fn json_rendering(j: Json) -> Seq<char> {
    match j {
        Json::Null => "null"@,
        Json::Bool(b) => if b {
            "true"@
        } else {
            "false"@
        },
        Json::Number { rendered, .. } => rendered@,
        Json::Str(s) => s@,
        Json::Array { rendered, .. } => rendered@,
        Json::Object { rendered, .. } => rendered@,
    }
}

impl Json {
    /// The member `key` of an object.
    pub fn get(&self, key: &str) -> (r: Option<&Json>)
        ensures
            match json_get(*self, key@) {
                None => r is None,
                Some(v) => r matches Some(x) && *x == v,
            },
    {
        match self {
            Json::Object { members, .. } => {
                let k = String::from_str(key);
                let mut i: usize = 0;
                proof {
                    assert(members@.skip(0) =~= members@);
                }
                while i < members.len()
                    invariant
                        i <= members.len(),
                        json_get(*self, key@) == member_lookup(members@, key@),
                        k@ == key@,
                        member_lookup(members@, key@) == member_lookup(members@.skip(i as int), key@),
                    decreases members.len() - i,
                {
                    proof {
                        assert(members@.skip(i as int)[0] == members@[i as int]);
                        assert(members@.skip(i as int).drop_first() =~= members@.skip(i + 1));
                    }
                    if members[i].0 == k {
                        return Some(&members[i].1);
                    }
                    i += 1;
                }
                None
            },
            _ => None,
        }
    }

    /// The text of a string value.
    pub fn as_str(&self) -> (r: Option<&String>)
        ensures
            match json_as_str(*self) {
                None => r is None,
                Some(s) => r matches Some(x) && x@ == s,
            },
    {
        match self {
            Json::Str(s) => Some(s),
            _ => None,
        }
    }

    /// The value of a number that is a non-negative integer fitting in `u64`.
    pub fn as_u64(&self) -> (r: Option<u64>)
        ensures
            r == json_as_u64(*self),
    {
        match self {
            Json::Number { as_u64, .. } => *as_u64,
            _ => None,
        }
    }

    /// The items of an array.
    pub fn as_array(&self) -> (r: Option<&Vec<Json>>)
        ensures
            match json_as_array(*self) {
                None => r is None,
                Some(items) => r matches Some(x) && x@ == items,
            },
    {
        match self {
            Json::Array { items, .. } => Some(items),
            _ => None,
        }
    }

    /// `self[key].as_str()`.
    pub fn str_member(&self, key: &str) -> (r: Option<&String>)
        ensures
            match json_as_str(json_index(*self, key@)) {
                None => r is None,
                Some(s) => r matches Some(x) && x@ == s,
            },
    {
        match self.get(key) {
            Some(v) => v.as_str(),
            None => None,
        }
    }
}

} // verus!
