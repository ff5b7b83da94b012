//! JSON documents as plain trees, and the calls into `serde_json` that read and write them.

use vstd::prelude::*;
use vstd::utf8::encode_utf8;

use crate::text::str_eq;

verus! {

/// A JSON document.
///
/// Where a member's name occurs more than once in an object, the last occurrence counts.
#[derive(Debug, PartialEq)]
pub enum Json {
    Null,
    Bool(bool),
    Number(serde_json::Number),
    Text(String),
    Array(Vec<Json>),
    Object(Vec<(String, Json)>),
}

/// What a JSON document says.
pub enum JsonView {
    Null,
    Bool(bool),
    Number(serde_json::Number),
    Text(Seq<char>),
    Array(Seq<JsonView>),
    Object(Map<Seq<char>, JsonView>),
}

/// A number of a JSON document, of which nothing but its identity is used.
#[verifier::external_type_specification]
#[verifier::external_body]
pub struct ExNumber(serde_json::Number);

/// A JSON document of `serde_json`; [`value_tree`] names what it holds.
#[verifier::external_type_specification]
#[verifier::external_body]
pub struct ExValue(serde_json::Value);

/// `Number` derives `Clone`: the clone is the same number.
pub assume_specification[ <serde_json::Number as Clone>::clone ](
    number: &serde_json::Number,
) -> (res: serde_json::Number)
    ensures
        res == *number,
;

/// The members that a list of named values gives an object.
pub open spec fn members(entries: Seq<(Seq<char>, JsonView)>) -> Map<Seq<char>, JsonView>
    decreases entries.len(),
{
    if entries.len() == 0 {
        Map::empty()
    } else {
        members(entries.drop_last()).insert(entries.last().0, entries.last().1)
    }
}

impl Json {
    pub open spec fn tree(self) -> JsonView
        decreases self,
    {
        match self {
            Json::Null => JsonView::Null,
            Json::Bool(b) => JsonView::Bool(b),
            Json::Number(n) => JsonView::Number(n),
            Json::Text(s) => JsonView::Text(s@),
            Json::Array(items) => JsonView::Array(trees(items@)),
            Json::Object(entries) => JsonView::Object(members(entry_trees(entries@))),
        }
    }
}

/// What each of a list of documents says.
pub open spec fn trees(items: Seq<Json>) -> Seq<JsonView>
    decreases items,
{
    if items.len() == 0 {
        seq![]
    } else {
        trees(items.drop_last()).push(items.last().tree())
    }
}

/// What each of a list of named documents says.
pub open spec fn entry_trees(entries: Seq<(String, Json)>) -> Seq<(Seq<char>, JsonView)>
    decreases entries,
{
    if entries.len() == 0 {
        seq![]
    } else {
        entry_trees(entries.drop_last()).push((entries.last().0@, entries.last().1.tree()))
    }
}

impl View for Json {
    type V = JsonView;

    open spec fn view(&self) -> JsonView {
        self.tree()
    }
}

impl JsonView {
    /// The member of an object with the given name.
    pub open spec fn get(self, key: Seq<char>) -> Option<JsonView> {
        match self {
            JsonView::Object(m) => if m.contains_key(key) {
                Some(m[key])
            } else {
                None
            },
            _ => None,
        }
    }

    /// The text of a string.
    pub open spec fn as_text(self) -> Option<Seq<char>> {
        match self {
            JsonView::Text(s) => Some(s),
            _ => None,
        }
    }

    /// The first item of an array.
    pub open spec fn first(self) -> Option<JsonView> {
        match self {
            JsonView::Array(items) => if items.len() > 0 {
                Some(items[0])
            } else {
                None
            },
            _ => None,
        }
    }

    /// The text of the member with the given name, where it is a string.
    pub open spec fn get_text(self, key: Seq<char>) -> Option<Seq<char>> {
        match self.get(key) {
            Some(value) => value.as_text(),
            None => None,
        }
    }
}

/// What a document of `serde_json` holds.
pub uninterp spec fn value_tree(value: serde_json::Value) -> JsonView;

/// The outermost level of a document of `serde_json`.
pub enum JsonNode {
    Null,
    Bool(bool),
    Number(serde_json::Number),
    Text(String),
    Array(Vec<serde_json::Value>),
    Object(Vec<(String, serde_json::Value)>),
}

/// What a list of named documents of `serde_json` says.
pub open spec fn value_entries(entries: Seq<(String, serde_json::Value)>) -> Seq<
    (Seq<char>, JsonView),
> {
    Seq::new(entries.len(), |i: int| (entries[i].0@, value_tree(entries[i].1)))
}

impl View for JsonNode {
    type V = JsonView;

    open spec fn view(&self) -> JsonView {
        match *self {
            JsonNode::Null => JsonView::Null,
            JsonNode::Bool(b) => JsonView::Bool(b),
            JsonNode::Number(n) => JsonView::Number(n),
            JsonNode::Text(s) => JsonView::Text(s@),
            JsonNode::Array(items) => JsonView::Array(
                Seq::new(items@.len(), |i: int| value_tree(items@[i])),
            ),
            JsonNode::Object(entries) => JsonView::Object(members(value_entries(entries@))),
        }
    }
}

/// No member's name occurs twice.
pub open spec fn distinct_names(entries: Seq<(String, serde_json::Value)>) -> bool {
    forall|i: int, j: int|
        0 <= i < j < entries.len() ==> (#[trigger] entries[i]).0@ != (#[trigger] entries[j]).0@
}

/// The variants of `serde_json::Value`, told apart. The members of an object come out of its
/// `serde_json::Map` as pairs, each name once.
#[verifier::external_body]
fn open_value(value: serde_json::Value) -> (res: JsonNode)
    ensures
        res@ == value_tree(value),
        res matches JsonNode::Object(entries) ==> distinct_names(entries@),
{
    match value {
        serde_json::Value::Null => JsonNode::Null,
        serde_json::Value::Bool(b) => JsonNode::Bool(b),
        serde_json::Value::Number(n) => JsonNode::Number(n),
        serde_json::Value::String(s) => JsonNode::Text(s),
        serde_json::Value::Array(items) => JsonNode::Array(items),
        serde_json::Value::Object(map) => JsonNode::Object(map.into_iter().collect()),
    }
}

/// A `serde_json::Value` of the given outermost level. The pairs, each name once, go into a
/// `serde_json::Map`.
#[verifier::external_body]
fn close_value(node: JsonNode) -> (res: serde_json::Value)
    requires
        node matches JsonNode::Object(entries) ==> distinct_names(entries@),
    ensures
        value_tree(res) == node@,
{
    match node {
        JsonNode::Null => serde_json::Value::Null,
        JsonNode::Bool(b) => serde_json::Value::Bool(b),
        JsonNode::Number(n) => serde_json::Value::Number(n),
        JsonNode::Text(s) => serde_json::Value::String(s),
        JsonNode::Array(items) => serde_json::Value::Array(items),
        JsonNode::Object(entries) => serde_json::Value::Object(entries.into_iter().collect()),
    }
}

proof fn lemma_trees(items: Seq<Json>)
    ensures
        trees(items).len() == items.len(),
        forall|i: int| 0 <= i < items.len() ==> trees(items)[i] == (#[trigger] items[i]).tree(),
    decreases items.len(),
{
    if items.len() > 0 {
        lemma_trees(items.drop_last());
        assert forall|i: int| 0 <= i < items.len() implies trees(items)[i] == (
        #[trigger] items[i]).tree() by {
            if i < items.len() - 1 {
                assert(items.drop_last()[i] == items[i]);
            }
        }
    }
}

proof fn lemma_entry_trees(entries: Seq<(String, Json)>)
    ensures
        entry_trees(entries).len() == entries.len(),
        forall|i: int|
            0 <= i < entries.len() ==> entry_trees(entries)[i] == (
                (#[trigger] entries[i]).0@,
                entries[i].1.tree(),
            ),
    decreases entries.len(),
{
    if entries.len() > 0 {
        lemma_entry_trees(entries.drop_last());
        assert forall|i: int| 0 <= i < entries.len() implies entry_trees(entries)[i] == (
            (#[trigger] entries[i]).0@,
            entries[i].1.tree(),
        ) by {
            if i < entries.len() - 1 {
                assert(entries.drop_last()[i] == entries[i]);
            }
        }
    }
}

proof fn lemma_members_finite(entries: Seq<(Seq<char>, JsonView)>)
    ensures
        members(entries).dom().finite(),
    decreases entries.len(),
{
    if entries.len() > 0 {
        lemma_members_finite(entries.drop_last());
    }
}

/// Each name of a list in which none occurs twice is a member, with its own value.
proof fn lemma_members_distinct(entries: Seq<(Seq<char>, JsonView)>, i: int)
    requires
        0 <= i < entries.len(),
        forall|a: int, b: int|
            0 <= a < b < entries.len() ==> (#[trigger] entries[a]).0 != (#[trigger] entries[b]).0,
    ensures
        members(entries).contains_key(entries[i].0),
        members(entries)[entries[i].0] == entries[i].1,
    decreases entries.len(),
{
    if i < entries.len() - 1 {
        lemma_members_distinct(entries.drop_last(), i);
    }
}

/// One of the entries from the given place on has the name.
spec fn occurs_from(entries: Seq<(Seq<char>, JsonView)>, name: Seq<char>, from: int) -> bool {
    exists|k: int| from <= k < entries.len() && (#[trigger] entries[k]).0 == name
}

proof fn lemma_repeated_name(
    entries: Seq<(String, Json)>,
    views: Seq<(Seq<char>, JsonView)>,
    i: int,
)
    requires
        0 <= i < entries.len() == views.len(),
        forall|j: int| 0 <= j < entries.len() ==> views[j].0 == (#[trigger] entries[j]).0@,
    ensures
        occurs_from(views, views[i].0, i + 1) <==> exists|k: int|
            i < k < entries.len() && (#[trigger] entries[k]).0@ == entries[i].0@,
{
    if occurs_from(views, views[i].0, i + 1) {
        let k = choose|k: int| i + 1 <= k < views.len() && (#[trigger] views[k]).0 == views[i].0;
        assert(entries[k].0@ == entries[i].0@);
    }
    if exists|k: int| i < k < entries.len() && (#[trigger] entries[k]).0@ == entries[i].0@ {
        let k = choose|k: int|
            i < k < entries.len() && (#[trigger] entries[k]).0@ == entries[i].0@;
        assert(views[k].0 == views[i].0);
    }
}

/// Of the entries before the given place, those are chosen whose names do not occur from there on.
spec fn is_latest(
    chosen: Seq<(Seq<char>, JsonView)>,
    entries: Seq<(Seq<char>, JsonView)>,
    place: int,
) -> bool {
    &&& forall|key: Seq<char>| #[trigger]
        occurs_from(entries, key, place) ==> !members(chosen).contains_key(key)
    &&& forall|key: Seq<char>|
        !#[trigger] occurs_from(entries, key, place) ==> {
            &&& members(chosen).contains_key(key) == members(entries.take(place)).contains_key(key)
            &&& members(chosen).contains_key(key) ==> members(chosen)[key] == members(
                entries.take(place),
            )[key]
        }
}

/// The entry at the given place is chosen where its name does not occur behind it.
proof fn lemma_latest_next(
    chosen: Seq<(Seq<char>, JsonView)>,
    entries: Seq<(Seq<char>, JsonView)>,
    place: int,
)
    requires
        0 <= place < entries.len(),
        is_latest(chosen, entries, place),
    ensures
        occurs_from(entries, entries[place].0, place + 1) ==> is_latest(
            chosen,
            entries,
            place + 1,
        ),
        !occurs_from(entries, entries[place].0, place + 1) ==> {
            &&& is_latest(chosen.push(entries[place]), entries, place + 1)
            &&& forall|a: int|
                0 <= a < chosen.len() ==> (#[trigger] chosen[a]).0 != entries[place].0
        },
{
    let name = entries[place].0;
    let before = entries.take(place);
    let after = entries.take(place + 1);
    assert(after.drop_last() =~= before);
    assert(after.last() == entries[place]);
    assert(members(after) == members(before).insert(name, entries[place].1));
    assert(occurs_from(entries, name, place)) by {
        assert(entries[place].0 == name);
    }
    let repeated = occurs_from(entries, name, place + 1);
    let more = chosen.push(entries[place]);
    assert(more.drop_last() =~= chosen);
    assert(members(more) == members(chosen).insert(name, entries[place].1));
    assert forall|a: int| 0 <= a < chosen.len() implies (#[trigger] chosen[a]).0 != name by {
        lemma_member_names(chosen, a);
    }
    let next = if repeated {
        chosen
    } else {
        more
    };
    assert forall|key: Seq<char>| #[trigger]
        occurs_from(entries, key, place + 1) implies !members(next).contains_key(key) by {
        let k = choose|k: int| place + 1 <= k < entries.len() && (#[trigger] entries[k]).0 == key;
        assert(entries[k].0 == key);
        assert(occurs_from(entries, key, place));
    }
    assert forall|key: Seq<char>| !#[trigger] occurs_from(entries, key, place + 1) implies {
        &&& members(next).contains_key(key) == members(after).contains_key(key)
        &&& members(next).contains_key(key) ==> members(next)[key] == members(after)[key]
    } by {
        if key != name {
            if occurs_from(entries, key, place) {
                let k = choose|k: int|
                    place <= k < entries.len() && (#[trigger] entries[k]).0 == key;
                assert(entries[k].0 == key && place + 1 <= k);
            }
            assert(!occurs_from(entries, key, place));
        }
    }
    assert(is_latest(next, entries, place + 1));
}

/// At the end, the chosen entries give the same members as all of them.
proof fn lemma_latest_end(
    chosen: Seq<(Seq<char>, JsonView)>,
    entries: Seq<(Seq<char>, JsonView)>,
)
    requires
        is_latest(chosen, entries, entries.len() as int),
    ensures
        members(chosen) == members(entries),
{
    assert(entries.take(entries.len() as int) =~= entries);
    let (first, second) = (members(chosen), members(entries));
    assert forall|key: Seq<char>|
        {
            &&& #[trigger] first.dom().contains(key) == second.dom().contains(key)
            &&& first.dom().contains(key) ==> first[key] == second[key]
        } by {
        assert(!occurs_from(entries, key, entries.len() as int));
    }
    assert(first =~= second);
}

/// Each name of a list is that of a member.
proof fn lemma_member_names(entries: Seq<(Seq<char>, JsonView)>, i: int)
    requires
        0 <= i < entries.len(),
    ensures
        members(entries).contains_key(entries[i].0),
    decreases entries.len(),
{
    if i < entries.len() - 1 {
        lemma_member_names(entries.drop_last(), i);
    }
}

impl Json {
    /// The document of `serde_json`, as a plain tree.
    pub fn from_value(value: serde_json::Value) -> (res: Json)
        ensures
            res@ == value_tree(value),
        decreases value_tree(value),
    {
        match open_value(value) {
            JsonNode::Null => Json::Null,
            JsonNode::Bool(b) => Json::Bool(b),
            JsonNode::Number(n) => Json::Number(n),
            JsonNode::Text(s) => Json::Text(s),
            JsonNode::Array(items) => {
                let ghost views = Seq::new(items@.len(), |i: int| value_tree(items@[i]));
                let ghost given = items@;
                let mut trees_of: Vec<Json> = Vec::new();
                for item in it: items
                    invariant
                        it.seq() == given,
                        views.len() == given.len(),
                        value_tree(value) == JsonView::Array(views),
                        forall|i: int| 0 <= i < given.len() ==> views[i] == value_tree(given[i]),
                        trees(trees_of@) == views.take(it.index()),
                {
                    assert(views[it.index()] == value_tree(item));
                    assert(decreases_to!(value_tree(value) => value_tree(value)->Array_0));
                    assert(decreases_to!(views => views[it.index()]));
                    let tree = Json::from_value(item);
                    let ghost before = trees_of@;
                    trees_of.push(tree);
                    assert(trees_of@.drop_last() == before);
                    assert(views.take(it.index() + 1) == views.take(it.index()).push(tree@));
                }
                assert(views.take(views.len() as int) == views);
                Json::Array(trees_of)
            },
            JsonNode::Object(entries) => {
                let ghost views = value_entries(entries@);
                let ghost given = entries@;
                let mut trees_of: Vec<(String, Json)> = Vec::new();
                for entry in it: entries
                    invariant
                        it.seq() == given,
                        views == value_entries(given),
                        distinct_names(given),
                        value_tree(value) == JsonView::Object(members(views)),
                        entry_trees(trees_of@) == views.take(it.index()),
                {
                    proof {
                        lemma_members_distinct(views, it.index());
                        lemma_members_finite(views);
                        let m = members(views);
                        assert(decreases_to!(value_tree(value) => value_tree(value)->Object_0));
                        assert(decreases_to!(m => m[views[it.index()].0]));
                    }
                    let (name, item) = entry;
                    let tree = Json::from_value(item);
                    let ghost before = trees_of@;
                    trees_of.push((name, tree));
                    assert(trees_of@.drop_last() == before);
                    assert(views.take(it.index() + 1) == views.take(it.index()).push(
                        (name@, tree@),
                    ));
                }
                assert(views.take(views.len() as int) == views);
                Json::Object(trees_of)
            },
        }
    }

    /// The plain tree, as a document of `serde_json`.
    pub fn to_value(&self) -> (res: serde_json::Value)
        ensures
            value_tree(res) == self@,
        decreases self,
    {
        let node = match self {
            Json::Null => JsonNode::Null,
            Json::Bool(b) => JsonNode::Bool(*b),
            Json::Number(n) => JsonNode::Number(n.clone()),
            Json::Text(s) => JsonNode::Text(s.clone()),
            Json::Array(items) => {
                let mut values: Vec<serde_json::Value> = Vec::new();
                let mut i: usize = 0;
                proof {
                    lemma_trees(items@);
                }
                while i < items.len()
                    invariant
                        *self == Json::Array(*items),
                        trees(items@).len() == items@.len(),
                        forall|j: int|
                            0 <= j < items@.len() ==> trees(items@)[j] == (
                            #[trigger] items@[j]).tree(),
                        0 <= i <= items@.len(),
                        values@.len() == i,
                        forall|j: int|
                            0 <= j < i ==> value_tree(#[trigger] values@[j]) == trees(items@)[j],
                    decreases items@.len() - i,
                {
                    assert(decreases_to!(self => self->Array_0));
                    assert(decreases_to!(items => items@));
                    assert(decreases_to!(items@ => items@[i as int]));
                    values.push(items[i].to_value());
                    i = i + 1;
                }
                assert(Seq::new(values@.len(), |j: int| value_tree(values@[j])) =~= trees(items@));
                JsonNode::Array(values)
            },
            Json::Object(entries) => {
                let mut values: Vec<(String, serde_json::Value)> = Vec::new();
                let mut i: usize = 0;
                let ghost views = entry_trees(entries@);
                proof {
                    lemma_entry_trees(entries@);
                    assert(members(value_entries(values@)) =~= members(views.take(0)));
                }
                while i < entries.len()
                    invariant
                        *self == Json::Object(*entries),
                        views == entry_trees(entries@),
                        views.len() == entries@.len(),
                        forall|j: int|
                            0 <= j < entries@.len() ==> views[j] == (
                                (#[trigger] entries@[j]).0@,
                                entries@[j].1.tree(),
                            ),
                        0 <= i <= entries@.len(),
                        distinct_names(values@),
                        is_latest(value_entries(values@), views, i as int),
                    decreases entries@.len() - i,
                {
                    let mut repeated = false;
                    let mut j: usize = i + 1;
                    while j < entries.len()
                        invariant
                            i < j <= entries@.len(),
                            repeated <==> exists|k: int|
                                i < k < j && (#[trigger] entries@[k]).0@ == entries@[i as int].0@,
                        decreases entries@.len() - j,
                    {
                        if str_eq(entries[j].0.as_str(), entries[i].0.as_str()) {
                            repeated = true;
                        }
                        j = j + 1;
                    }
                    let ghost before = values@;
                    let ghost chosen = value_entries(before);
                    proof {
                        assert(views[i as int] == (
                            entries@[i as int].0@,
                            entries@[i as int].1.tree(),
                        ));
                        lemma_repeated_name(entries@, views, i as int);
                        lemma_latest_next(chosen, views, i as int);
                    }
                    if !repeated {
                        assert(decreases_to!(self => self->Object_0));
                        assert(decreases_to!(entries => entries@));
                        assert(decreases_to!(entries@ => entries@[i as int]));
                        assert(decreases_to!(entries@[i as int] => entries@[i as int].1));
                        values.push((entries[i].0.clone(), entries[i].1.to_value()));
                        proof {
                            assert(value_entries(values@) =~= chosen.push(views[i as int]));
                            assert forall|a: int, b: int| 0 <= a < b < values@.len() implies (
                            #[trigger] values@[a]).0@ != (#[trigger] values@[b]).0@ by {
                                if b == before.len() {
                                    assert(chosen[a].0 == before[a].0@);
                                } else {
                                    assert(before[a].0@ != before[b].0@);
                                }
                            }
                        }
                    }
                    i = i + 1;
                }
                proof {
                    lemma_latest_end(value_entries(values@), views);
                }
                JsonNode::Object(values)
            },
        };
        close_value(node)
    }

    /// The member of an object with the given name.
    pub fn get<'a>(&'a self, key: &str) -> (res: Option<&'a Json>)
        ensures
            res is Some <==> self@.get(key@) is Some,
            res is Some ==> self@.get(key@) == Some(res->0@),
    {
        match self {
            Json::Object(entries) => {
                let mut i: usize = entries.len();
                let ghost views = entry_trees(entries@);
                proof {
                    lemma_entry_trees(entries@);
                }
                assert(views.take(i as int) == views);
                while i > 0
                    invariant
                        0 <= i <= entries@.len() == views.len(),
                        forall|j: int|
                            0 <= j < entries@.len() ==> views[j] == (
                                (#[trigger] entries@[j]).0@,
                                entries@[j].1.tree(),
                            ),
                        members(views).contains_key(key@) == members(views.take(i as int)).contains_key(
                            key@,
                        ),
                        members(views)[key@] == members(views.take(i as int))[key@],
                        self@ == JsonView::Object(members(views)),
                    decreases i,
                {
                    let ghost prefix = views.take(i as int);
                    i = i - 1;
                    assert(prefix.drop_last() == views.take(i as int));
                    assert(views[i as int] == (entries@[i as int].0@, entries@[i as int].1.tree()));
                    if str_eq(entries[i].0.as_str(), key) {
                        return Some(&entries[i].1);
                    }
                }
                None
            },
            _ => None,
        }
    }

    /// The text of a string.
    pub fn as_str<'a>(&'a self) -> (res: Option<&'a str>)
        ensures
            res is Some <==> self@.as_text() is Some,
            res is Some ==> self@.as_text() == Some(res->0@),
    {
        match self {
            Json::Text(s) => Some(s.as_str()),
            _ => None,
        }
    }

    /// The first item of an array.
    pub fn first<'a>(&'a self) -> (res: Option<&'a Json>)
        ensures
            res is Some <==> self@.first() is Some,
            res is Some ==> self@.first() == Some(res->0@),
    {
        match self {
            Json::Array(items) => {
                proof {
                    lemma_trees(items@);
                }
                if items.len() > 0 {
                    Some(&items[0])
                } else {
                    None
                }
            },
            _ => None,
        }
    }

    /// The text of the member with the given name, where it is a string.
    pub fn get_str<'a>(&'a self, key: &str) -> (res: Option<&'a str>)
        ensures
            res is Some <==> self@.get_text(key@) is Some,
            res is Some ==> self@.get_text(key@) == Some(res->0@),
    {
        match self.get(key) {
            Some(value) => value.as_str(),
            None => None,
        }
    }
}

/// What `serde_json` reads in the bytes of a document: the document, or the text of its error.
pub uninterp spec fn parsed_json(body: Seq<u8>) -> Result<JsonView, Seq<char>>;

/// `serde_json::from_slice` reads one document of any kind; [`parsed_json`] names what it finds,
/// which depends on the bytes alone.
#[verifier::external_body]
fn parse_value(body: &[u8]) -> (res: Result<serde_json::Value, String>)
    ensures
        match res {
            Ok(value) => parsed_json(body@) == Ok::<JsonView, Seq<char>>(value_tree(value)),
            Err(text) => parsed_json(body@) == Err::<JsonView, Seq<char>>(text@),
        },
{
    serde_json::from_slice::<serde_json::Value>(body).map_err(|err| err.to_string())
}

/// What `serde_json` reads in the bytes of an array: its items, or the text of its error.
pub uninterp spec fn parsed_json_array(body: Seq<u8>) -> Result<Seq<JsonView>, Seq<char>>;

/// `serde_json::from_slice` reads an array of documents of any kind; [`parsed_json_array`] names
/// what it finds, which depends on the bytes alone.
#[verifier::external_body]
fn parse_values(body: &[u8]) -> (res: Result<Vec<serde_json::Value>, String>)
    ensures
        match res {
            Ok(values) => parsed_json_array(body@) == Ok::<Seq<JsonView>, Seq<char>>(
                Seq::new(values@.len(), |i: int| value_tree(values@[i])),
            ),
            Err(text) => parsed_json_array(body@) == Err::<Seq<JsonView>, Seq<char>>(text@),
        },
{
    serde_json::from_slice::<Vec<serde_json::Value>>(body).map_err(|err| err.to_string())
}

/// The compact JSON text of a document.
pub uninterp spec fn json_text(tree: JsonView) -> Seq<char>;

/// The `Display` of `serde_json::Value` writes the compact JSON text of the document, which
/// [`json_text`] names and which depends on what the document holds alone.
#[verifier::external_body]
fn print_value(value: &serde_json::Value) -> (res: String)
    ensures
        res@ == json_text(value_tree(*value)),
{
    value.to_string()
}

/// `serde_json::to_vec` gives the UTF-8 bytes of the text that the `Display` of the same document
/// writes: both call `serde_json`'s compact writer. It fails only where the writer, a map's key or
/// a `Serialize` of the caller does, and a `Value` brings none of these.
#[verifier::external_body]
fn write_value(value: &serde_json::Value) -> (res: Result<Vec<u8>, String>)
    ensures
        res is Ok,
        res->Ok_0@ == encode_utf8(json_text(value_tree(*value))),
{
    serde_json::to_vec(value).map_err(|err| err.to_string())
}

impl Json {
    /// Reads one document.
    pub fn parse(body: &[u8]) -> (res: Result<Json, String>)
        ensures
            match res {
                Ok(document) => parsed_json(body@) == Ok::<JsonView, Seq<char>>(document@),
                Err(text) => parsed_json(body@) == Err::<JsonView, Seq<char>>(text@),
            },
    {
        match parse_value(body) {
            Ok(value) => Ok(Json::from_value(value)),
            Err(text) => Err(text),
        }
    }

    /// Reads an array of documents.
    pub fn parse_array(body: &[u8]) -> (res: Result<Vec<Json>, String>)
        ensures
            match res {
                Ok(items) => parsed_json_array(body@) == Ok::<Seq<JsonView>, Seq<char>>(
                    trees(items@),
                ),
                Err(text) => parsed_json_array(body@) == Err::<Seq<JsonView>, Seq<char>>(text@),
            },
    {
        let values = match parse_values(body) {
            Ok(values) => values,
            Err(text) => {
                return Err(text);
            },
        };
        let ghost given = values@;
        let ghost views = Seq::new(given.len(), |i: int| value_tree(given[i]));
        let mut items: Vec<Json> = Vec::new();
        for value in it: values
            invariant
                it.seq() == given,
                views == Seq::new(given.len(), |i: int| value_tree(given[i])),
                trees(items@) == views.take(it.index()),
        {
            let item = Json::from_value(value);
            let ghost before = items@;
            items.push(item);
            assert(items@.drop_last() == before);
            assert(views.take(it.index() + 1) == views.take(it.index()).push(item@));
        }
        assert(views.take(views.len() as int) == views);
        Ok(items)
    }

    /// The compact JSON text of the document.
    pub fn to_text(&self) -> (res: String)
        ensures
            res@ == json_text(self@),
    {
        print_value(&self.to_value())
    }

    /// The bytes of the compact JSON text of the document.
    pub fn to_bytes(&self) -> (res: Result<Vec<u8>, String>)
        ensures
            res is Ok,
            res->Ok_0@ == encode_utf8(json_text(self@)),
    {
        write_value(&self.to_value())
    }
}

impl Clone for Json {
    fn clone(&self) -> (res: Json)
        ensures
            res@ == self@,
        decreases self,
    {
        match self {
            Json::Null => Json::Null,
            Json::Bool(b) => Json::Bool(*b),
            Json::Number(n) => Json::Number(n.clone()),
            Json::Text(s) => Json::Text(s.clone()),
            Json::Array(items) => {
                let mut copies: Vec<Json> = Vec::new();
                let mut i: usize = 0;
                while i < items.len()
                    invariant
                        *self == Json::Array(*items),
                        0 <= i <= items@.len(),
                        trees(copies@) == trees(items@.take(i as int)),
                    decreases items@.len() - i,
                {
                    assert(decreases_to!(self => self->Array_0));
                    assert(decreases_to!(items => items@));
                    assert(decreases_to!(items@ => items@[i as int]));
                    let copy = items[i].clone();
                    let ghost before = copies@;
                    copies.push(copy);
                    assert(copies@.drop_last() == before);
                    assert(items@.take(i + 1).drop_last() == items@.take(i as int));
                    i = i + 1;
                }
                assert(items@.take(i as int) == items@);
                Json::Array(copies)
            },
            Json::Object(entries) => {
                let mut copies: Vec<(String, Json)> = Vec::new();
                let mut i: usize = 0;
                while i < entries.len()
                    invariant
                        *self == Json::Object(*entries),
                        0 <= i <= entries@.len(),
                        entry_trees(copies@) == entry_trees(entries@.take(i as int)),
                    decreases entries@.len() - i,
                {
                    assert(decreases_to!(self => self->Object_0));
                    assert(decreases_to!(entries => entries@));
                    assert(decreases_to!(entries@ => entries@[i as int]));
                    assert(decreases_to!(entries@[i as int] => entries@[i as int].1));
                    let copy = entries[i].1.clone();
                    let ghost before = copies@;
                    copies.push((entries[i].0.clone(), copy));
                    assert(copies@.drop_last() == before);
                    assert(entries@.take(i + 1).drop_last() == entries@.take(i as int));
                    i = i + 1;
                }
                assert(entries@.take(i as int) == entries@);
                Json::Object(copies)
            },
        }
    }
}

// ---- Laws ----

/// Two lists of members one after the other: each member of the second counts, and of the first
/// those whose names the second does not hold.
pub proof fn law_last_member_counts(
    first: Seq<(Seq<char>, JsonView)>,
    second: Seq<(Seq<char>, JsonView)>,
    name: Seq<char>,
)
    ensures
        members(first + second).contains_key(name) <==> (members(second).contains_key(name)
            || members(first).contains_key(name)),
        members(second).contains_key(name) ==> members(first + second)[name] == members(
            second,
        )[name],
        !members(second).contains_key(name) && members(first).contains_key(name) ==> members(
            first + second,
        )[name] == members(first)[name],
    decreases second.len(),
{
    if second.len() > 0 {
        law_last_member_counts(first, second.drop_last(), name);
        assert((first + second).drop_last() =~= first + second.drop_last());
        assert((first + second).last() == second.last());
    } else {
        assert(first + second =~= first);
    }
}

/// A single member has its name and its value, and no members are none.
pub proof fn law_single_member(name: Seq<char>, value: JsonView)
    ensures
        members(seq![(name, value)]) == Map::<Seq<char>, JsonView>::empty().insert(name, value),
        members(seq![]) == Map::<Seq<char>, JsonView>::empty(),
{
    reveal_with_fuel(members, 2);
    assert(seq![(name, value)].drop_last() =~= seq![]);
}

/// What is read from a document: a member of an object is found under its own name and whatever
/// else the object holds, a text is read only from a string, and the first item only from an array
/// that is not empty.
pub proof fn law_reads_what_stands_there(
    object: Map<Seq<char>, JsonView>,
    items: Seq<JsonView>,
    text: Seq<char>,
    name: Seq<char>,
    other: JsonView,
)
    ensures
        object.contains_key(name) ==> JsonView::Object(object).get(name) == Some(object[name]),
        !object.contains_key(name) ==> JsonView::Object(object).get(name) is None,
        other !is Object ==> other.get(name) is None,
        JsonView::Text(text).as_text() == Some(text),
        other !is Text ==> other.as_text() is None,
        items.len() > 0 ==> JsonView::Array(items).first() == Some(items[0]),
        items.len() == 0 ==> JsonView::Array(items).first() is None,
        other !is Array ==> other.first() is None,
        object.contains_key(name) && object[name] == JsonView::Text(text) ==> JsonView::Object(
            object,
        ).get_text(name) == Some(text),
        other.get_text(name) is Some ==> other.get(name) == Some(
            JsonView::Text(other.get_text(name)->0),
        ),
{
}

/// What a tree says is what stands in it, item by item and member by member.
pub proof fn law_tree_says_what_it_holds(
    flag: bool,
    number: serde_json::Number,
    text: String,
    items: Vec<Json>,
    entries: Vec<(String, Json)>,
)
    ensures
        Json::Null@ is Null,
        Json::Bool(flag)@ == JsonView::Bool(flag),
        Json::Number(number)@ == JsonView::Number(number),
        Json::Text(text)@ == JsonView::Text(text@),
        Json::Array(items)@ is Array,
        Json::Array(items)@->Array_0.len() == items@.len(),
        forall|i: int|
            0 <= i < items@.len() ==> Json::Array(items)@->Array_0[i] == (#[trigger] items@[i])@,
        exists|named: Seq<(Seq<char>, JsonView)>|
            {
                &&& Json::Object(entries)@ == JsonView::Object(#[trigger] members(named))
                &&& named.len() == entries@.len()
                &&& forall|i: int|
                    0 <= i < entries@.len() ==> (#[trigger] named[i]) == (
                        entries@[i].0@,
                        entries@[i].1@,
                    )
            },
{
    lemma_trees(items@);
    lemma_entry_trees(entries@);
    let named = entry_trees(entries@);
    assert forall|i: int| 0 <= i < entries@.len() implies (#[trigger] named[i]) == (
        entries@[i].0@,
        entries@[i].1@,
    ) by {
        assert(entries@[i].0@ == named[i].0);
    }
    assert(Json::Object(entries)@ == JsonView::Object(members(named)));
}

} // verus!
