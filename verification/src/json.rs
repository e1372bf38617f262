//! JSON values as plain data: what the bridge reads out of replies and writes
//! into requests. Numbers are kept as the text they were written in.

use vstd::prelude::*;

use crate::text::{
    decimal_of, is_digit, lemma_decimal_reads_back, numbers_read_back, only_digits_are_numbers,
    parse_decimal, parsed_decimal, same_text,
};

verus! {

/// A JSON value.
#[derive(Debug)]
pub enum Json {
    Null,
    Bool(bool),
    /// A number, in its JSON spelling.
    Number(String),
    Text(String),
    Array(Vec<Json>),
    Object(Vec<Member>),
}

/// One member of a JSON object.
#[derive(Debug)]
pub struct Member {
    pub key: String,
    pub value: Json,
}

/// What a [`Json`] stands for.
pub enum JsonView {
    Null,
    Bool(bool),
    Number(Seq<char>),
    Text(Seq<char>),
    Array(Seq<JsonView>),
    Object(Seq<(Seq<char>, JsonView)>),
}

impl View for Json {
    type V = JsonView;

    open spec fn view(&self) -> JsonView {
        value_of(*self)
    }
}

/// The value that `j` stands for.
pub open spec fn value_of(j: Json) -> JsonView
    decreases j,
{
    match j {
        Json::Null => JsonView::Null,
        Json::Bool(b) => JsonView::Bool(b),
        Json::Number(s) => JsonView::Number(s@),
        Json::Text(s) => JsonView::Text(s@),
        Json::Array(v) => JsonView::Array(
            Seq::new(
                v@.len(),
                |i: int|
                    if 0 <= i < v@.len() {
                        value_of(v@[i])
                    } else {
                        JsonView::Null
                    },
            ),
        ),
        Json::Object(v) => JsonView::Object(
            Seq::new(
                v@.len(),
                |i: int|
                    if 0 <= i < v@.len() {
                        (v@[i].key@, value_of(v@[i].value))
                    } else {
                        (Seq::empty(), JsonView::Null)
                    },
            ),
        ),
    }
}

/// The views of a list of values.
pub open spec fn json_views(v: Seq<Json>) -> Seq<JsonView> {
    v.map_values(|j: Json| j@)
}

/// The view of one member.
pub open spec fn member_view(m: Member) -> (Seq<char>, JsonView) {
    (m.key@, m.value@)
}

/// The views of a list of members.
pub open spec fn member_views(v: Seq<Member>) -> Seq<(Seq<char>, JsonView)> {
    v.map_values(|m: Member| member_view(m))
}

/// The value that the first member named `key` holds.
pub open spec fn lookup(members: Seq<(Seq<char>, JsonView)>, key: Seq<char>) -> Option<JsonView>
    decreases members.len(),
{
    if members.len() == 0 {
        None
    } else if members[0].0 == key {
        Some(members[0].1)
    } else {
        lookup(members.drop_first(), key)
    }
}

impl JsonView {
    /// The member named `key`, where this is an object that has one.
    pub open spec fn get(self, key: Seq<char>) -> Option<JsonView> {
        match self {
            JsonView::Object(members) => lookup(members, key),
            _ => None,
        }
    }

    /// The member named `key`, and `Null` where there is none.
    pub open spec fn at(self, key: Seq<char>) -> JsonView {
        match self.get(key) {
            Some(v) => v,
            None => JsonView::Null,
        }
    }

    /// The characters of a string value.
    pub open spec fn as_text(self) -> Option<Seq<char>> {
        match self {
            JsonView::Text(s) => Some(s),
            _ => None,
        }
    }

    /// The number, where this is one without sign, fraction and exponent that fits.
    pub open spec fn as_u64(self) -> Option<nat> {
        match self {
            JsonView::Number(s) => if s.len() > 0 && s[0] == '+' {
                None
            } else {
                parsed_decimal(s, u64::MAX as nat)
            },
            _ => None,
        }
    }

    /// The truth value of a boolean.
    pub open spec fn as_bool(self) -> Option<bool> {
        match self {
            JsonView::Bool(b) => Some(b),
            _ => None,
        }
    }
}

/// The view of an object is made of the views of its members, that of an array of
/// those of its elements.
pub proof fn lemma_json_views(j: Json)
    ensures
        j matches Json::Array(v) ==> j@ == JsonView::Array(json_views(v@)),
        j matches Json::Object(m) ==> j@ == JsonView::Object(member_views(m@)),
{
    reveal_with_fuel(value_of, 2);
    match j {
        Json::Array(v) => {
            assert(j@->Array_0 =~= json_views(v@));
        },
        Json::Object(m) => {
            assert(j@->Object_0 =~= member_views(m@));
        },
        _ => {},
    }
}

/// A member of an object.
pub fn member(key: &str, value: Json) -> (m: Member)
    ensures
        member_view(m) == (key@, value@),
{
    Member { key: key.to_owned(), value }
}

impl Json {
    /// A string value.
    pub fn text(s: &str) -> (r: Json)
        ensures
            r@ == JsonView::Text(s@),
    {
        Json::Text(s.to_owned())
    }

    /// An array of the given values.
    pub fn array(values: Vec<Json>) -> (r: Json)
        ensures
            r@ == JsonView::Array(json_views(values@)),
    {
        let r = Json::Array(values);
        proof {
            lemma_json_views(r);
        }
        r
    }

    /// An object of the given members.
    pub fn object(members: Vec<Member>) -> (r: Json)
        ensures
            r@ == JsonView::Object(member_views(members@)),
    {
        let r = Json::Object(members);
        proof {
            lemma_json_views(r);
        }
        r
    }

    /// The member named `key`, where this is an object that has one.
    pub fn get(&self, key: &str) -> (r: Option<&Json>)
        ensures
            match r {
                Some(v) => self@.get(key@) == Some(v@),
                None => self@.get(key@) is None,
            },
    {
        match self {
            Json::Object(members) => {
                proof {
                    lemma_json_views(*self);
                }
                let ghost all = member_views(members@);
                let mut i: usize = 0;
                assert(all.skip(0) =~= all);
                while i < members.len()
                    invariant
                        all == member_views(members@),
                        i <= members.len(),
                        self@ == JsonView::Object(all),
                        lookup(all, key@) == lookup(all.skip(i as int), key@),
                    decreases members.len() - i,
                {
                    proof {
                        assert(all.skip(i as int)[0] == member_view(members@[i as int]));
                        assert(all.skip(i as int).drop_first() =~= all.skip(i + 1));
                    }
                    if same_text(members[i].key.as_str(), key) {
                        return Some(&members[i].value);
                    }
                    i = i + 1;
                }
                None
            },
            _ => None,
        }
    }

    /// The characters of a string value.
    pub fn as_text(&self) -> (r: Option<&str>)
        ensures
            match r {
                Some(s) => self@.as_text() == Some(s@),
                None => self@.as_text() is None,
            },
    {
        match self {
            Json::Text(s) => Some(s.as_str()),
            _ => None,
        }
    }

    /// The truth value of a boolean.
    pub fn as_bool(&self) -> (r: Option<bool>)
        ensures
            r == self@.as_bool(),
    {
        match self {
            Json::Bool(b) => Some(*b),
            _ => None,
        }
    }

    /// The number, where this is one without sign, fraction and exponent that fits.
    pub fn as_u64(&self) -> (r: Option<u64>)
        ensures
            match r {
                Some(n) => self@.as_u64() == Some(n as nat),
                None => self@.as_u64() is None,
            },
    {
        match self {
            Json::Number(s) => {
                if s.as_str().unicode_len() > 0 && s.as_str().get_char(0) == '+' {
                    return None;
                }
                parse_decimal(s.as_str(), u64::MAX)
            },
            _ => None,
        }
    }

    /// The string that the member named `key` holds.
    pub fn text_at(&self, key: &str) -> (r: Option<&str>)
        ensures
            match r {
                Some(s) => self@.at(key@).as_text() == Some(s@),
                None => self@.at(key@).as_text() is None,
            },
    {
        match self.get(key) {
            Some(v) => v.as_text(),
            None => None,
        }
    }

    /// Another value that stands for the same thing.
    pub fn duplicate(&self) -> (r: Json)
        ensures
            r@ == self@,
        decreases *self,
    {
        match self {
            Json::Null => Json::Null,
            Json::Bool(b) => Json::Bool(*b),
            Json::Number(s) => Json::Number(s.clone()),
            Json::Text(s) => Json::Text(s.clone()),
            Json::Array(v) => {
                let mut out: Vec<Json> = Vec::new();
                let mut i: usize = 0;
                while i < v.len()
                    invariant
                        i <= v.len(),
                        out@.len() == i,
                        *self == Json::Array(*v),
                        forall|k: int| 0 <= k < i ==> (#[trigger] out@[k])@ == v@[k]@,
                    decreases v.len() - i,
                {
                    proof {
                        assert(decreases_to!(*self => (*self)->Array_0));
                        assert(decreases_to!((*self)->Array_0 => (*self)->Array_0@[i as int]));
                    }
                    out.push(v[i].duplicate());
                    i = i + 1;
                }
                let r = Json::Array(out);
                proof {
                    lemma_json_views(r);
                    lemma_json_views(*self);
                    assert(json_views(out@) =~= json_views(v@));
                }
                r
            },
            Json::Object(v) => {
                let mut out: Vec<Member> = Vec::new();
                let mut i: usize = 0;
                while i < v.len()
                    invariant
                        i <= v.len(),
                        out@.len() == i,
                        *self == Json::Object(*v),
                        forall|k: int| 0 <= k < i ==> member_view(#[trigger] out@[k]) == member_view(v@[k]),
                    decreases v.len() - i,
                {
                    proof {
                        let ms = (*self)->Object_0;
                        assert(decreases_to!(*self => (*self)->Object_0));
                        assert(decreases_to!(ms => ms@[i as int]));
                        assert(decreases_to!(ms@[i as int] => ms@[i as int].value));
                    }
                    out.push(Member { key: v[i].key.clone(), value: v[i].value.duplicate() });
                    i = i + 1;
                }
                let r = Json::Object(out);
                proof {
                    lemma_json_views(r);
                    lemma_json_views(*self);
                    assert(member_views(out@) =~= member_views(v@));
                }
                r
            },
        }
    }
}

// Laws.

/// An object has under a key what its first member of that name holds, and nothing where
/// no member has the name.
pub proof fn members_are_found_by_name(members: Seq<(Seq<char>, JsonView)>, key: Seq<char>, i: int)
    requires
        0 <= i <= members.len(),
        forall|j: int| 0 <= j < i ==> (#[trigger] members[j]).0 != key,
        i < members.len() ==> members[i].0 == key,
    ensures
        JsonView::Object(members).get(key) == (if i < members.len() {
            Some(members[i].1)
        } else {
            None
        }),
        JsonView::Object(members).at(key) == (if i < members.len() {
            members[i].1
        } else {
            JsonView::Null
        }),
    decreases i,
{
    if 0 < i {
        let rest = members.drop_first();
        assert(members[0].0 != key);
        assert forall|j: int| 0 <= j < i - 1 implies (#[trigger] rest[j]).0 != key by {
            assert(rest[j] == members[j + 1]);
        }
        members_are_found_by_name(rest, key, i - 1);
    }
}

/// Only objects have members, only strings are text, and only booleans are true or
/// false.
pub proof fn values_are_what_they_are(
    key: Seq<char>,
    t: Seq<char>,
    b: bool,
    n: Seq<char>,
    a: Seq<JsonView>,
    m: Seq<(Seq<char>, JsonView)>,
)
    ensures
        JsonView::Text(t).as_text() == Some(t),
        JsonView::Null.as_text() is None,
        JsonView::Bool(b).as_text() is None,
        JsonView::Number(n).as_text() is None,
        JsonView::Array(a).as_text() is None,
        JsonView::Object(m).as_text() is None,
        JsonView::Bool(b).as_bool() == Some(b),
        JsonView::Null.as_bool() is None,
        JsonView::Text(t).as_bool() is None,
        JsonView::Number(n).as_bool() is None,
        JsonView::Array(a).as_bool() is None,
        JsonView::Object(m).as_bool() is None,
        JsonView::Null.get(key) is None,
        JsonView::Bool(b).get(key) is None,
        JsonView::Text(t).get(key) is None,
        JsonView::Number(n).get(key) is None,
        JsonView::Array(a).get(key) is None,
        JsonView::Text(t).as_u64() is None,
        JsonView::Null.as_u64() is None,
{
}

/// A number in decimal is read as itself up to 64 bits, and as nothing beyond.
pub proof fn whole_numbers_are_read(n: nat)
    ensures
        JsonView::Number(decimal_of(n)).as_u64() == (if n <= 0xffff_ffff_ffff_ffff {
            Some(n)
        } else {
            None
        }),
        JsonView::Number(seq!['-'] + decimal_of(n)).as_u64() is None,
{
    numbers_read_back(n, u64::MAX as nat);
    lemma_decimal_reads_back(n);
    let negative = seq!['-'] + decimal_of(n);
    only_digits_are_numbers(negative, u64::MAX as nat, 0);
    assert(is_digit(decimal_of(n)[0]));
}

} // verus!
