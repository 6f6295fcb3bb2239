//! JSON values, as far as PHPMD's report is read from them.
use crate::text::{leading, lemma_leading_is, same_text};
use vstd::prelude::*;

verus! {

/// A JSON value.
pub enum Json {
    Null,
    Bool(bool),
    /// A number: its value where that is an integer from 0 to `u64::MAX` written as one, and
    /// its text.
    Number(Option<u64>, String),
    Text(String),
    Array(Vec<Json>),
    /// The members of an object, each with its name.
    Object(Vec<(String, Json)>),
}

/// What a JSON value holds.
pub enum JsonView {
    Null,
    Bool(bool),
    Number(Option<u64>, Seq<char>),
    Text(Seq<char>),
    Array(Seq<JsonView>),
    Object(Seq<(Seq<char>, JsonView)>),
}

/// What the items of an array hold.
pub open spec fn item_views(items: Seq<Json>) -> Seq<JsonView>
    decreases items,
{
    Seq::new(
        items.len(),
        |i: int|
            if 0 <= i < items.len() {
                items[i].view()
            } else {
                JsonView::Null
            },
    )
}

/// What the members of an object hold.
pub open spec fn member_views(members: Seq<(String, Json)>) -> Seq<(Seq<char>, JsonView)>
    decreases members,
{
    Seq::new(
        members.len(),
        |i: int|
            if 0 <= i < members.len() {
                (members[i].0@, members[i].1.view())
            } else {
                (Seq::empty(), JsonView::Null)
            },
    )
}

/// The predicate that holds of the members that are not named `name`.
pub open spec fn named_other_than(name: Seq<char>) -> spec_fn((Seq<char>, JsonView)) -> bool {
    |member: (Seq<char>, JsonView)| member.0 != name
}

impl JsonView {
    /// The member named `name`, where the value is an object that has one.
    pub open spec fn member(self, name: Seq<char>) -> Option<JsonView> {
        match self {
            JsonView::Object(members) => {
                let n = leading(members, named_other_than(name));
                if n < members.len() {
                    Some(members[n as int].1)
                } else {
                    None
                }
            },
            _ => None,
        }
    }

    /// The items, where the value is an array.
    pub open spec fn items(self) -> Option<Seq<JsonView>> {
        match self {
            JsonView::Array(items) => Some(items),
            _ => None,
        }
    }

    /// The characters, where the value is a text.
    pub open spec fn text(self) -> Option<Seq<char>> {
        match self {
            JsonView::Text(t) => Some(t),
            _ => None,
        }
    }

    /// The number, where the value is an integer from 0 to `u64::MAX`.
    pub open spec fn unsigned(self) -> Option<u64> {
        match self {
            JsonView::Number(n, _) => n,
            _ => None,
        }
    }

    /// The text of the member named `name`.
    pub open spec fn member_text(self, name: Seq<char>) -> Option<Seq<char>> {
        match self.member(name) {
            Some(v) => v.text(),
            None => None,
        }
    }

    /// The number of the member named `name`.
    pub open spec fn member_unsigned(self, name: Seq<char>) -> Option<u64> {
        match self.member(name) {
            Some(v) => v.unsigned(),
            None => None,
        }
    }

    /// The items of the member named `name`.
    pub open spec fn member_items(self, name: Seq<char>) -> Option<Seq<JsonView>> {
        match self.member(name) {
            Some(v) => v.items(),
            None => None,
        }
    }
}

/// What an optional value holds.
pub open spec fn json_of(value: Option<Json>) -> Option<JsonView> {
    match value {
        Some(v) => Some(v@),
        None => None,
    }
}

impl Json {
    /// What the value holds.
    pub open spec fn view(&self) -> JsonView
        decreases self,
    {
        match self {
            Json::Null => JsonView::Null,
            Json::Bool(b) => JsonView::Bool(*b),
            Json::Number(n, t) => JsonView::Number(*n, t@),
            Json::Text(t) => JsonView::Text(t@),
            Json::Array(items) => JsonView::Array(item_views(items@)),
            Json::Object(members) => JsonView::Object(member_views(members@)),
        }
    }

    /// The member named `name`, where this is an object that has one.
    pub fn member(&self, name: &str) -> (r: Option<&Json>)
        ensures
            match r {
                Some(v) => self@.member(name@) == Some(v@),
                None => self@.member(name@) is None,
            },
    {
        match self {
            Json::Object(members) => {
                let ghost all = member_views(members@);
                let mut i: usize = 0;
                while i < members.len()
                    invariant
                        i <= members@.len(),
                        all == member_views(members@),
                        self@ == JsonView::Object(all),
                        forall|j: int| 0 <= j < i ==> (#[trigger] all[j]).0 != name@,
                    decreases members@.len() - i,
                {
                    assert(all[i as int] == (members@[i as int].0@, members@[i as int].1@));
                    if same_text(members[i].0.as_str(), name) {
                        proof {
                            lemma_leading_is(all, named_other_than(name@), i as nat);
                        }
                        return Some(&members[i].1);
                    }
                    i = i + 1;
                }
                proof {
                    lemma_leading_is(all, named_other_than(name@), all.len());
                }
                None
            },
            _ => None,
        }
    }

    /// The items, where this is an array.
    pub fn items(&self) -> (r: Option<&Vec<Json>>)
        ensures
            match r {
                Some(items) => self@.items() == Some(item_views(items@)),
                None => self@.items() is None,
            },
    {
        match self {
            Json::Array(items) => Some(items),
            _ => None,
        }
    }

    /// The text, where this is one.
    pub fn text(&self) -> (r: Option<&String>)
        ensures
            match r {
                Some(t) => self@.text() == Some(t@),
                None => self@.text() is None,
            },
    {
        match self {
            Json::Text(t) => Some(t),
            _ => None,
        }
    }

    /// The number, where this is an integer from 0 to `u64::MAX`.
    pub fn unsigned(&self) -> (r: Option<u64>)
        ensures
            r == self@.unsigned(),
    {
        match self {
            Json::Number(n, _) => *n,
            _ => None,
        }
    }

    /// A copy of the text of the member named `name`.
    pub fn member_text(&self, name: &str) -> (r: Option<String>)
        ensures
            crate::text::text_of(r) == self@.member_text(name@),
    {
        match self.member(name) {
            Some(v) => match v.text() {
                Some(t) => Some(t.clone()),
                None => None,
            },
            None => None,
        }
    }

    /// The number of the member named `name`.
    pub fn member_unsigned(&self, name: &str) -> (r: Option<u64>)
        ensures
            r == self@.member_unsigned(name@),
    {
        match self.member(name) {
            Some(v) => v.unsigned(),
            None => None,
        }
    }

    /// A copy of the member named `name`.
    pub fn member_copy(&self, name: &str) -> (r: Option<Json>)
        ensures
            json_of(r) == self@.member(name@),
    {
        match self.member(name) {
            Some(v) => Some(v.clone()),
            None => None,
        }
    }
}

impl Clone for Json {
    fn clone(&self) -> (r: Self)
        ensures
            r@ == self@,
        decreases self,
    {
        match self {
            Json::Null => Json::Null,
            Json::Bool(b) => Json::Bool(*b),
            Json::Number(n, t) => Json::Number(*n, t.clone()),
            Json::Text(t) => Json::Text(t.clone()),
            Json::Array(items) => {
                let mut copy: Vec<Json> = Vec::new();
                let mut i: usize = 0;
                while i < items.len()
                    invariant
                        i <= items@.len(),
                        self == Json::Array(*items),
                        item_views(copy@) =~= item_views(items@).take(i as int),
                    decreases items@.len() - i,
                {
                    assert(decreases_to!(self => self->Array_0));
                    assert(decreases_to!(items => items@));
                    assert(decreases_to!(items@ => items@[i as int]));
                    let item = items[i].clone();
                    assert(item@ == items@[i as int]@);
                    let ghost before = copy@;
                    copy.push(item);
                    assert(item_views(copy@) =~= item_views(before).push(item@));
                    i = i + 1;
                }
                assert(item_views(copy@) =~= item_views(items@));
                Json::Array(copy)
            },
            Json::Object(members) => {
                let mut copy: Vec<(String, Json)> = Vec::new();
                let mut i: usize = 0;
                while i < members.len()
                    invariant
                        i <= members@.len(),
                        self == Json::Object(*members),
                        member_views(copy@) =~= member_views(members@).take(i as int),
                    decreases members@.len() - i,
                {
                    assert(decreases_to!(self => self->Object_0));
                    assert(decreases_to!(members => members@));
                    assert(decreases_to!(members@ => members@[i as int]));
                    assert(decreases_to!(members@[i as int] => members@[i as int].1));
                    let item = members[i].1.clone();
                    let ghost before = copy@;
                    copy.push((members[i].0.clone(), item));
                    assert(member_views(copy@) =~= member_views(before).push(
                        (members@[i as int].0@, item@),
                    ));
                    i = i + 1;
                }
                assert(member_views(copy@) =~= member_views(members@));
                Json::Object(copy)
            },
        }
    }
}

/// The value that a text stands for, where it is JSON.
pub uninterp spec fn parsed_json(text: Seq<char>) -> Option<JsonView>;

/// What a `serde_json::Value` holds: its tree of values, numbers with their text.
pub uninterp spec fn value_tree(value: serde_json::Value) -> JsonView;

/// The error with which `serde_json` refuses a text.
#[verifier::external_type_specification]
#[verifier::external_body]
pub struct ExJsonError(serde_json::Error);

/// A value that `serde_json` has parsed.
#[verifier::external_type_specification]
#[verifier::external_body]
pub struct ExJsonValue(serde_json::Value);

/// `serde_json::from_str` parses a text into a `serde_json::Value`. The name `parsed_json`
/// stands for the tree of that value; it is `None` for the texts that are refused.
#[verifier::external_body]
fn parse_value(text: &str) -> (r: Result<serde_json::Value, serde_json::Error>)
    ensures
        match r {
            Ok(value) => parsed_json(text@) == Some(value_tree(value)),
            Err(_) => parsed_json(text@) is None,
        },
{
    serde_json::from_str(text)
}

/// Takes a `serde_json::Value` apart into the tree that the name `value_tree` stands for.
/// `serde_json::Number::as_u64` gives the value of a number that is an unsigned integer, and
/// its `to_string` the text.
#[verifier::external_body]
fn json_of_value(value: serde_json::Value) -> (r: Json)
    ensures
        r@ == value_tree(value),
{
    match value {
        serde_json::Value::Null => Json::Null,
        serde_json::Value::Bool(b) => Json::Bool(b),
        serde_json::Value::Number(n) => Json::Number(n.as_u64(), n.to_string()),
        serde_json::Value::String(s) => Json::Text(s),
        serde_json::Value::Array(items) => {
            Json::Array(items.into_iter().map(json_of_value).collect())
        },
        serde_json::Value::Object(members) => {
            Json::Object(members.into_iter().map(|(k, v)| (k, json_of_value(v))).collect())
        },
    }
}

/// Takes a value that `serde_json` has parsed.
pub fn json_from(value: serde_json::Value) -> (r: Json)
    ensures
        r@ == value_tree(value),
{
    json_of_value(value)
}

/// Parses a JSON text.
pub fn parse_json(text: &str) -> (r: Option<Json>)
    ensures
        json_of(r) == parsed_json(text@),
{
    match parse_value(text) {
        Ok(value) => Some(json_of_value(value)),
        Err(_) => None,
    }
}

/// A member of an object is found by its name, the first one of that name.
pub proof fn law_member_is_found(members: Seq<(Seq<char>, JsonView)>, i: int)
    requires
        0 <= i < members.len(),
        forall|j: int| 0 <= j < i ==> (#[trigger] members[j]).0 != members[i].0,
    ensures
        JsonView::Object(members).member(members[i].0) == Some(members[i].1),
{
    lemma_leading_is(members, named_other_than(members[i].0), i as nat);
}

/// No member is found in an object without one of that name, and none in another value.
pub proof fn law_missing_member_is_not_found(
    members: Seq<(Seq<char>, JsonView)>,
    name: Seq<char>,
    other: JsonView,
)
    requires
        forall|j: int| 0 <= j < members.len() ==> (#[trigger] members[j]).0 != name,
        !(other is Object),
    ensures
        JsonView::Object(members).member(name) is None,
        other.member(name) is None,
{
    lemma_leading_is(members, named_other_than(name), members.len());
}

/// A value gives what it holds to the question that fits it, and nothing to the others.
pub proof fn law_value_gives_what_it_holds(value: JsonView)
    ensures
        match value {
            JsonView::Array(items) => value.items() == Some(items) && value.text() is None
                && value.unsigned() is None,
            JsonView::Text(text) => value.text() == Some(text) && value.items() is None
                && value.unsigned() is None,
            JsonView::Number(n, _) => value.unsigned() == n && value.items() is None
                && value.text() is None,
            _ => value.items() is None && value.text() is None && value.unsigned() is None,
        },
{
}

/// What a member gives is what its value gives; a missing one gives nothing.
pub proof fn law_member_gives_what_it_holds(value: JsonView, name: Seq<char>)
    ensures
        match value.member(name) {
            Some(member) => value.member_text(name) == member.text() && value.member_unsigned(name)
                == member.unsigned() && value.member_items(name) == member.items(),
            None => value.member_text(name) is None && value.member_unsigned(name) is None
                && value.member_items(name) is None,
        },
{
}

/// An array holds what each of its items holds, and an object what each of its members holds
/// under its name, in order.
pub proof fn law_values_hold_what_is_in_them(items: Seq<Json>, members: Seq<(String, Json)>)
    ensures
        item_views(items).len() == items.len(),
        forall|i: int| 0 <= i < items.len() ==> #[trigger] item_views(items)[i] == items[i]@,
        member_views(members).len() == members.len(),
        forall|i: int|
            0 <= i < members.len() ==> #[trigger] member_views(members)[i] == (
                members[i].0@,
                members[i].1@,
            ),
{
}

} // verus!
