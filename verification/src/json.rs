//! JSON documents, read by the `serde_json` crate.

use crate::text::same_text;
use vstd::prelude::*;

verus! {

/// One member of a JSON object, as far as the engine reads it.
#[derive(Debug, Clone)]
pub struct JsonMember {
    pub key: String,
    /// The content of the value, where the value is a string.
    pub text: Option<String>,
    /// The value as an unsigned integer, where it is one.
    pub unsigned: Option<u64>,
    /// The value as compact JSON.
    pub compact: String,
}

/// A JSON document, as far as the engine reads it.
#[derive(Debug, Clone)]
pub struct JsonDoc {
    /// The document, pretty-printed.
    pub pretty: Option<String>,
    /// The members of the document where it is an object, in the order of
    /// their keys, each key once; empty where it is not.
    pub members: Vec<JsonMember>,
}

/// What a [`JsonMember`] holds, as mathematical values.
pub struct Member {
    pub key: Seq<char>,
    pub text: Option<Seq<char>>,
    pub unsigned: Option<u64>,
    pub compact: Seq<char>,
}

/// What a [`JsonDoc`] holds, as mathematical values.
pub struct Document {
    pub pretty: Option<Seq<char>>,
    pub members: Seq<Member>,
}

impl View for JsonMember {
    type V = Member;

    open spec fn view(&self) -> Member {
        Member {
            key: self.key@,
            text: self.text.deep_view(),
            unsigned: self.unsigned,
            compact: self.compact@,
        }
    }
}

impl View for JsonDoc {
    type V = Document;

    open spec fn view(&self) -> Document {
        Document {
            pretty: self.pretty.deep_view(),
            members: Seq::new(self.members.len() as nat, |i: int| self.members[i]@),
        }
    }
}

/// The document that `text` holds, as `serde_json` reads it, the members
/// of an object in the order of their keys; `None` where `text` is not valid
/// JSON.
pub uninterp spec fn json_document(text: Seq<char>) -> Option<Document>;

/// `serde_json::from_str` into a `serde_json::Value`, and what the engine
/// reads of the value: for each member of an object its key, the content of a
/// string (`Value::as_str`), an unsigned integer (`Value::as_u64`) and the
/// compact rendering (`serde_json::to_string`); and the pretty rendering of
/// the whole (`serde_json::to_string_pretty`).
#[verifier::external_body]
pub(crate) fn read_json(text: &str) -> (doc: Option<JsonDoc>)
    ensures
        match doc {
            Some(d) => json_document(text@) == Some(d@),
            None => json_document(text@) is None,
        },
{
    let value: serde_json::Value = serde_json::from_str(text).ok()?;
    let members = value.as_object().map(
        |o| o.iter().map(
            |(k, v)| JsonMember {
                key: k.clone(),
                text: v.as_str().map(String::from),
                unsigned: v.as_u64(),
                compact: serde_json::to_string(v).unwrap_or_default(),
            },
        ).collect(),
    ).unwrap_or_default();
    Some(JsonDoc { pretty: serde_json::to_string_pretty(&value).ok(), members })
}

/// The first member of `members` whose key is `key`.
pub open spec fn member_at(members: Seq<Member>, key: Seq<char>) -> Option<int>
    decreases members.len(),
{
    if members.len() == 0 {
        None
    } else if members[0].key == key {
        Some(0)
    } else {
        match member_at(members.drop_first(), key) {
            Some(i) => Some(i + 1),
            None => None,
        }
    }
}

/// The first member of `members` whose key is `key`.
pub open spec fn pick(members: Seq<Member>, key: Seq<char>) -> Option<Member> {
    match member_at(members, key) {
        Some(i) => Some(members[i]),
        None => None,
    }
}

impl JsonDoc {
    /// The place of the first member whose key is `key`.
    pub fn find(&self, key: &str) -> (r: Option<usize>)
        ensures
            match r {
                Some(i) => member_at(self@.members, key@) == Some(i as int) && i
                    < self.members.len(),
                None => member_at(self@.members, key@) is None,
            },
    {
        let mut i: usize = 0;
        let ghost all = self@.members;
        assert(all.subrange(0, all.len() as int) =~= all);
        while i < self.members.len()
            invariant
                i <= self.members.len(),
                all == self@.members,
                all.len() == self.members.len(),
                member_at(all, key@) == match member_at(all.subrange(i as int, all.len() as int), key@) {
                    Some(k) => Some(k + i),
                    None => None,
                },
            decreases self.members.len() - i,
        {
            let ghost rest = all.subrange(i as int, all.len() as int);
            proof {
                assert(rest[0] == self.members[i as int]@);
                assert(rest.drop_first() =~= all.subrange(i + 1, all.len() as int));
            }
            if same_text(self.members[i].key.as_str(), key) {
                return Some(i);
            }
            i += 1;
        }
        assert(all.subrange(i as int, all.len() as int).len() == 0);
        None
    }

    /// The first member whose key is `key`.
    pub fn get(&self, key: &str) -> (r: Option<&JsonMember>)
        ensures
            match r {
                Some(m) => pick(self@.members, key@) == Some(m@),
                None => pick(self@.members, key@) is None,
            },
    {
        match self.find(key) {
            Some(i) => Some(&self.members[i]),
            None => None,
        }
    }
}

} // verus!
