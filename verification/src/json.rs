//! The bridge between documents and JSON trees.

use vstd::prelude::*;
use crate::number::Number;
use crate::value::{keys_of, put, Dict, Val, Value};

verus! {

/// A JSON tree. The members of an object are kept in their order.
#[derive(Debug, PartialEq)]
pub enum JsonTree {
    Null,
    Bool(bool),
    Number(Number),
    String(String),
    Array(Vec<JsonTree>),
    Object(Vec<(String, JsonTree)>),
}

/// The mathematical value of a [`JsonTree`].
pub enum Json {
    Null,
    Bool(bool),
    Number(Number),
    String(Seq<char>),
    Array(Seq<Json>),
    Object(Seq<(Seq<char>, Json)>),
}

/// The kinds of value that JSON cannot hold.
#[derive(Clone, Copy, Debug, PartialEq, Eq, Structural)]
pub enum Kind {
    Char,
    Cite,
    FreeDict,
    Record,
    Key,
    HandlerString,
    HandlerNumber,
    Comment,
    EmptyLine,
}

/// A value could not be turned into JSON: it holds a value of kind `kind`,
/// the first such in the order of the document.
#[derive(Clone, Copy, Debug, PartialEq, Eq, Structural)]
pub struct BridgeError {
    pub kind: Kind,
}

/// The JSON value that a tree stands for.
pub open spec fn json_of(j: JsonTree) -> Json
    decreases j,
{
    match j {
        JsonTree::Null => Json::Null,
        JsonTree::Bool(b) => Json::Bool(b),
        JsonTree::Number(n) => Json::Number(n),
        JsonTree::String(s) => Json::String(s@),
        JsonTree::Array(items) => Json::Array(
            Seq::new(
                items@.len(),
                |i: int|
                    if 0 <= i < items@.len() {
                        json_of(items@[i])
                    } else {
                        arbitrary()
                    },
            ),
        ),
        JsonTree::Object(members) => Json::Object(
            Seq::new(
                members@.len(),
                |i: int|
                    if 0 <= i < members@.len() {
                        (members@[i].0@, json_of(members@[i].1))
                    } else {
                        arbitrary()
                    },
            ),
        ),
    }
}

impl View for JsonTree {
    type V = Json;

    open spec fn view(&self) -> Json {
        json_of(*self)
    }
}

/// The document value of a JSON value: `null`, booleans, numbers and strings
/// as they are, an array as a list, an object as a dictionary that is given
/// the members one after the other.
pub open spec fn from_json(j: Json) -> Val
    decreases j, 0nat,
{
    match j {
        Json::Null => Val::Null,
        Json::Bool(b) => Val::Boolean(b),
        Json::Number(n) => Val::Number(n),
        Json::String(s) => Val::String(s),
        Json::Array(items) => Val::List(items_from_json(items, items.len())),
        Json::Object(members) => Val::Dict(members_from_json(members, members.len())),
    }
}

/// The document values of the first `n` of `items`.
pub open spec fn items_from_json(items: Seq<Json>, n: nat) -> Seq<Val>
    decreases items, n,
{
    if n == 0 || n > items.len() {
        Seq::empty()
    } else {
        items_from_json(items, (n - 1) as nat).push(from_json(items[n - 1]))
    }
}

/// The entries that the first `n` of `members` give, one after the other.
pub open spec fn members_from_json(members: Seq<(Seq<char>, Json)>, n: nat) -> Seq<
    (Seq<char>, Val),
>
    decreases members, n,
{
    if n == 0 || n > members.len() {
        Seq::empty()
    } else {
        put(
            members_from_json(members, (n - 1) as nat),
            members[n - 1].0,
            from_json(members[n - 1].1),
        )
    }
}

/// The JSON value of a document value, or the kind of the first value in it
/// that JSON cannot hold.
pub open spec fn to_json(v: Val) -> Result<Json, Kind>
    decreases v, 0nat,
{
    match v {
        Val::Null => Ok(Json::Null),
        Val::Boolean(b) => Ok(Json::Bool(b)),
        Val::Number(n) => Ok(Json::Number(n)),
        Val::String(s) => Ok(Json::String(s)),
        Val::List(items) => match items_to_json(items, items.len()) {
            Ok(js) => Ok(Json::Array(js)),
            Err(k) => Err(k),
        },
        Val::Dict(entries) => match entries_to_json(entries, entries.len()) {
            Ok(ms) => Ok(Json::Object(ms)),
            Err(k) => Err(k),
        },
        Val::Char(_) => Err(Kind::Char),
        Val::Cite(_) => Err(Kind::Cite),
        Val::FreeDict(_) => Err(Kind::FreeDict),
        Val::Record(_, _) => Err(Kind::Record),
        Val::Key(_, _) => Err(Kind::Key),
        Val::HandlerString(_, _) => Err(Kind::HandlerString),
        Val::HandlerNumber(_, _) => Err(Kind::HandlerNumber),
        Val::Comment(_, _) => Err(Kind::Comment),
        Val::EmptyLine => Err(Kind::EmptyLine),
    }
}

/// The JSON values of the first `n` of `items`, or the first failure.
pub open spec fn items_to_json(items: Seq<Val>, n: nat) -> Result<Seq<Json>, Kind>
    decreases items, n,
{
    if n == 0 || n > items.len() {
        Ok(Seq::empty())
    } else {
        match items_to_json(items, (n - 1) as nat) {
            Err(k) => Err(k),
            Ok(js) => match to_json(items[n - 1]) {
                Err(k) => Err(k),
                Ok(j) => Ok(js.push(j)),
            },
        }
    }
}

/// The JSON members of the first `n` of `entries`, or the first failure.
pub open spec fn entries_to_json(entries: Seq<(Seq<char>, Val)>, n: nat) -> Result<
    Seq<(Seq<char>, Json)>,
    Kind,
>
    decreases entries, n,
{
    if n == 0 || n > entries.len() {
        Ok(Seq::empty())
    } else {
        match entries_to_json(entries, (n - 1) as nat) {
            Err(k) => Err(k),
            Ok(ms) => match to_json(entries[n - 1].1) {
                Err(k) => Err(k),
                Ok(j) => Ok(ms.push((entries[n - 1].0, j))),
            },
        }
    }
}

impl Value {
    /// The document value of a JSON tree.
    pub fn from_json(j: &JsonTree) -> (v: Value)
        ensures
            v@ == from_json(j@),
        decreases j,
    {
        match j {
            JsonTree::Null => Value::Null,
            JsonTree::Bool(b) => Value::Boolean(*b),
            JsonTree::Number(n) => Value::Number(*n),
            JsonTree::String(s) => Value::String(s.clone()),
            JsonTree::Array(items) => {
                let mut list: Vec<Value> = Vec::new();
                let n: usize = items.len();
                let mut i: usize = 0;
                while i < n
                    invariant
                        i <= n == items.len(),
                        *j == JsonTree::Array(*items),
                        j@ is Array,
                        j@->Array_0.len() == n,
                        forall|k: int| 0 <= k < n ==> j@->Array_0[k] == (#[trigger] items@[k])@,
                        crate::value::vals_of(list@) == items_from_json(j@->Array_0, i as nat),
                    decreases n - i,
                {
                    let ghost before = crate::value::vals_of(list@);
                    let item = Value::from_json(&items[i]);
                    list.push(item);
                    i += 1;
                    assert(crate::value::vals_of(list@) =~= before.push(item@));
                }
                let v = Value::List(list);
                assert(v@->List_0 =~= crate::value::vals_of(list@));
                v
            },
            JsonTree::Object(members) => {
                let mut d = Dict::new();
                let n: usize = members.len();
                let mut i: usize = 0;
                while i < n
                    invariant
                        i <= n == members.len(),
                        *j == JsonTree::Object(*members),
                        j@ is Object,
                        j@->Object_0.len() == n,
                        forall|k: int|
                            0 <= k < n ==> j@->Object_0[k] == ((#[trigger] members@[k]).0@, members@[k].1@),
                        d@ == members_from_json(j@->Object_0, i as nat),
                    decreases n - i,
                {
                    let item = Value::from_json(&members[i].1);
                    let _ = d.insert(members[i].0.clone(), item);
                    i += 1;
                }
                Value::Dict(d)
            },
        }
    }

    /// The JSON tree of the value, where JSON can hold all of it.
    pub fn to_json(&self) -> (r: Result<JsonTree, BridgeError>)
        ensures
            match r {
                Ok(j) => to_json(self@) == Ok::<Json, Kind>(j@),
                Err(e) => to_json(self@) == Err::<Json, Kind>(e.kind),
            },
        decreases self,
    {
        match self {
            Value::Null => Ok(JsonTree::Null),
            Value::Boolean(b) => Ok(JsonTree::Bool(*b)),
            Value::Number(n) => Ok(JsonTree::Number(*n)),
            Value::String(s) => Ok(JsonTree::String(s.clone())),
            Value::List(items) => {
                let mut out: Vec<JsonTree> = Vec::new();
                let n: usize = items.len();
                let mut i: usize = 0;
                assert(jsons_of(out@) =~= Seq::<Json>::empty());
                while i < n
                    invariant
                        i <= n == items.len(),
                        *self == Value::List(*items),
                        self@ is List,
                        self@->List_0.len() == n,
                        forall|k: int| 0 <= k < n ==> self@->List_0[k] == (#[trigger] items@[k])@,
                        items_to_json(self@->List_0, i as nat) == Ok::<Seq<Json>, Kind>(
                            jsons_of(out@),
                        ),
                    decreases n - i,
                {
                    let ghost before = jsons_of(out@);
                    match items[i].to_json() {
                        Ok(j) => {
                            out.push(j);
                            assert(jsons_of(out@) =~= before.push(j@));
                        },
                        Err(e) => {
                            proof {
                                first_item_failure(self@->List_0, (i + 1) as nat, n as nat);
                            }
                            return Err(e);
                        },
                    }
                    i += 1;
                }
                let j = JsonTree::Array(out);
                assert(j@->Array_0 =~= jsons_of(out@));
                Ok(j)
            },
            Value::Dict(d) => {
                let mut out: Vec<(String, JsonTree)> = Vec::new();
                let n: usize = d.len();
                let mut i: usize = 0;
                assert(members_of(out@) =~= Seq::<(Seq<char>, Json)>::empty());
                while i < n
                    invariant
                        i <= n == d@.len(),
                        *self == Value::Dict(*d),
                        self@ == Val::Dict(d@),
                        entries_to_json(d@, i as nat) == Ok::<Seq<(Seq<char>, Json)>, Kind>(
                            members_of(out@),
                        ),
                    decreases n - i,
                {
                    let ghost before = members_of(out@);
                    match d.value_at(i).to_json() {
                        Ok(j) => {
                            let key = d.key_at(i).clone();
                            out.push((key, j));
                            assert(members_of(out@) =~= before.push((key@, j@)));
                        },
                        Err(e) => {
                            proof {
                                first_entry_failure(d@, (i + 1) as nat, n as nat);
                            }
                            return Err(e);
                        },
                    }
                    i += 1;
                }
                let j = JsonTree::Object(out);
                assert(j@->Object_0 =~= members_of(out@));
                Ok(j)
            },
            Value::Char(_) => Err(BridgeError { kind: Kind::Char }),
            Value::Cite(_) => Err(BridgeError { kind: Kind::Cite }),
            Value::FreeDict(_) => Err(BridgeError { kind: Kind::FreeDict }),
            Value::Record(_, _) => Err(BridgeError { kind: Kind::Record }),
            Value::Key(_, _) => Err(BridgeError { kind: Kind::Key }),
            Value::HandlerString(_, _) => Err(BridgeError { kind: Kind::HandlerString }),
            Value::HandlerNumber(_, _) => Err(BridgeError { kind: Kind::HandlerNumber }),
            Value::Comment(_, _) => Err(BridgeError { kind: Kind::Comment }),
            Value::EmptyLine => Err(BridgeError { kind: Kind::EmptyLine }),
        }
    }
}

/// The JSON values that a list of trees stands for.
pub open spec fn jsons_of(items: Seq<JsonTree>) -> Seq<Json> {
    Seq::new(items.len(), |i: int| json_of(items[i]))
}

/// The members that a list of named trees stands for.
pub open spec fn members_of(members: Seq<(String, JsonTree)>) -> Seq<(Seq<char>, Json)> {
    Seq::new(members.len(), |i: int| (members[i].0@, json_of(members[i].1)))
}

/// A failure among the first `n` items is the failure of every longer
/// prefix.
proof fn first_item_failure(items: Seq<Val>, n: nat, m: nat)
    requires
        n <= m <= items.len(),
        items_to_json(items, n) is Err,
    ensures
        items_to_json(items, m) == items_to_json(items, n),
    decreases m,
{
    if n < m {
        first_item_failure(items, n, (m - 1) as nat);
    }
}

/// A failure among the first `n` entries is the failure of every longer
/// prefix.
proof fn first_entry_failure(entries: Seq<(Seq<char>, Val)>, n: nat, m: nat)
    requires
        n <= m <= entries.len(),
        entries_to_json(entries, n) is Err,
    ensures
        entries_to_json(entries, m) == entries_to_json(entries, n),
    decreases m,
{
    if n < m {
        first_entry_failure(entries, n, (m - 1) as nat);
    }
}

impl From<JsonTree> for Value {
    /// The document value of a JSON tree.
    fn from(j: JsonTree) -> (v: Value)
        ensures
            v@ == from_json(j@),
    {
        Value::from_json(&j)
    }
}

impl vstd::std_specs::convert::FromSpecImpl<JsonTree> for Value {
    open spec fn obeys_from_spec() -> bool {
        false
    }

    open spec fn from_spec(j: JsonTree) -> Value {
        arbitrary()
    }
}

/// The names of the members of an object.
pub open spec fn names_of(members: Seq<(Seq<char>, Json)>) -> Seq<Seq<char>> {
    Seq::new(members.len(), |i: int| members[i].0)
}

/// Whether no object in a JSON value has two members of one name.
pub open spec fn distinct_names(j: Json) -> bool
    decreases j,
{
    match j {
        Json::Array(items) => forall|i: int|
            0 <= i < items.len() ==> distinct_names(#[trigger] items[i]),
        Json::Object(members) => names_of(members).no_duplicates() && forall|i: int|
            0 <= i < members.len() ==> distinct_names((#[trigger] members[i]).1),
        _ => true,
    }
}

/// Whether no dictionary in a value has two entries of one key.
pub open spec fn distinct_keys(v: Val) -> bool
    decreases v,
{
    match v {
        Val::List(items) => forall|i: int| 0 <= i < items.len() ==> distinct_keys(#[trigger] items[i]),
        Val::Dict(entries) => keys_of(entries).no_duplicates() && forall|i: int|
            0 <= i < entries.len() ==> distinct_keys((#[trigger] entries[i]).1),
        _ => true,
    }
}

/// Item by item, the list of an array holds the values of the array's items.
proof fn items_there(items: Seq<Json>, n: nat)
    requires
        n <= items.len(),
    ensures
        items_from_json(items, n).len() == n,
        forall|i: int| 0 <= i < n ==> items_from_json(items, n)[i] == from_json(items[i]),
    decreases n,
{
    if n > 0 {
        items_there(items, (n - 1) as nat);
    }
}

/// A list whose values turn into the items of an array turns into the array.
proof fn items_back(vs: Seq<Val>, items: Seq<Json>, n: nat)
    requires
        n <= vs.len(),
        vs.len() == items.len(),
        forall|i: int| 0 <= i < n ==> to_json(#[trigger] vs[i]) == Ok::<Json, Kind>(items[i]),
    ensures
        items_to_json(vs, n) == Ok::<Seq<Json>, Kind>(items.take(n as int)),
    decreases n,
{
    if n == 0 {
        assert(items.take(0) =~= Seq::<Json>::empty());
    } else {
        items_back(vs, items, (n - 1) as nat);
        assert(to_json(vs[n - 1]) == Ok::<Json, Kind>(items[n - 1]));
        assert(items.take(n - 1).push(items[n - 1]) =~= items.take(n as int));
    }
}

/// Member by member, the dictionary of an object whose names differ holds
/// the names and the values of the object's members.
proof fn members_there(members: Seq<(Seq<char>, Json)>, n: nat)
    requires
        n <= members.len(),
        names_of(members).no_duplicates(),
    ensures
        members_from_json(members, n).len() == n,
        forall|i: int|
            0 <= i < n ==> members_from_json(members, n)[i] == (
                members[i].0,
                from_json(members[i].1),
            ),
    decreases n,
{
    if n > 0 {
        members_there(members, (n - 1) as nat);
        let before = members_from_json(members, (n - 1) as nat);
        let name = members[n - 1].0;
        if keys_of(before).contains(name) {
            let i = keys_of(before).index_of(name);
            assert(names_of(members)[i] == names_of(members)[n - 1]);
        }
    }
}

/// A dictionary whose entries turn into the members of an object turns into
/// the object.
proof fn entries_back(entries: Seq<(Seq<char>, Val)>, members: Seq<(Seq<char>, Json)>, n: nat)
    requires
        n <= entries.len(),
        entries.len() == members.len(),
        forall|i: int|
            0 <= i < n ==> (#[trigger] entries[i]).0 == members[i].0 && to_json(entries[i].1) == Ok::<
                Json,
                Kind,
            >(members[i].1),
    ensures
        entries_to_json(entries, n) == Ok::<Seq<(Seq<char>, Json)>, Kind>(members.take(n as int)),
    decreases n,
{
    if n == 0 {
        assert(members.take(0) =~= Seq::<(Seq<char>, Json)>::empty());
    } else {
        entries_back(entries, members, (n - 1) as nat);
        assert(entries[n - 1].0 == members[n - 1].0);
        assert(members.take(n - 1).push(members[n - 1]) =~= members.take(n as int));
    }
}

/// From JSON to a document and back gives the JSON value again, where no
/// object has two members of one name.
pub proof fn json_there_and_back(j: Json)
    requires
        distinct_names(j),
    ensures
        to_json(from_json(j)) == Ok::<Json, Kind>(j),
        distinct_keys(from_json(j)),
    decreases j,
{
    match j {
        Json::Array(items) => {
            let vs = items_from_json(items, items.len());
            items_there(items, items.len());
            assert forall|i: int| 0 <= i < items.len() implies to_json(#[trigger] vs[i]) == Ok::<
                Json,
                Kind,
            >(items[i]) && distinct_keys(vs[i]) by {
                json_there_and_back(items[i]);
            }
            items_back(vs, items, items.len());
            assert(items.take(items.len() as int) =~= items);
        },
        Json::Object(members) => {
            let entries = members_from_json(members, members.len());
            members_there(members, members.len());
            assert forall|i: int| 0 <= i < members.len() implies (#[trigger] entries[i]).0
                == members[i].0 && to_json(entries[i].1) == Ok::<Json, Kind>(members[i].1)
                && distinct_keys(entries[i].1) by {
                json_there_and_back(members[i].1);
            }
            entries_back(entries, members, members.len());
            assert(members.take(members.len() as int) =~= members);
            assert(keys_of(entries) =~= names_of(members));
        },
        _ => {},
    }
}

/// Where a list turns into an array, each value turns into the array's item
/// at its place.
proof fn items_forth(vs: Seq<Val>, n: nat)
    requires
        n <= vs.len(),
        items_to_json(vs, n) is Ok,
    ensures
        items_to_json(vs, n)->Ok_0.len() == n,
        forall|i: int|
            0 <= i < n ==> to_json(#[trigger] vs[i]) == Ok::<Json, Kind>(
                items_to_json(vs, n)->Ok_0[i],
            ),
    decreases n,
{
    if n > 0 {
        items_forth(vs, (n - 1) as nat);
    }
}

/// Where a dictionary turns into an object, each entry turns into the
/// object's member at its place.
proof fn entries_forth(entries: Seq<(Seq<char>, Val)>, n: nat)
    requires
        n <= entries.len(),
        entries_to_json(entries, n) is Ok,
    ensures
        entries_to_json(entries, n)->Ok_0.len() == n,
        forall|i: int|
            0 <= i < n ==> (#[trigger] entries[i]).0 == entries_to_json(entries, n)->Ok_0[i].0
                && to_json(entries[i].1) == Ok::<Json, Kind>(entries_to_json(entries, n)->Ok_0[i].1),
    decreases n,
{
    if n > 0 {
        entries_forth(entries, (n - 1) as nat);
    }
}

/// From a document to JSON and back gives the document again, where JSON
/// can hold it and no dictionary has two entries of one key.
pub proof fn value_there_and_back(v: Val)
    requires
        distinct_keys(v),
        to_json(v) is Ok,
    ensures
        from_json(to_json(v)->Ok_0) == v,
        distinct_names(to_json(v)->Ok_0),
    decreases v,
{
    match v {
        Val::List(items) => {
            items_forth(items, items.len());
            let js = items_to_json(items, items.len())->Ok_0;
            items_there(js, js.len());
            assert forall|i: int| 0 <= i < items.len() implies from_json(#[trigger] js[i])
                == items[i] && distinct_names(js[i]) by {
                assert(to_json(items[i]) == Ok::<Json, Kind>(js[i]));
                value_there_and_back(items[i]);
            }
            assert(items_from_json(js, js.len()) =~= items);
        },
        Val::Dict(entries) => {
            entries_forth(entries, entries.len());
            let ms = entries_to_json(entries, entries.len())->Ok_0;
            assert(names_of(ms) =~= keys_of(entries)) by {
                assert forall|i: int| 0 <= i < ms.len() implies names_of(ms)[i] == keys_of(
                    entries,
                )[i] by {
                    assert(entries[i].0 == ms[i].0);
                }
            }
            members_there(ms, ms.len());
            assert forall|i: int| 0 <= i < entries.len() implies from_json((#[trigger] ms[i]).1)
                == entries[i].1 && distinct_names(ms[i].1) by {
                assert(entries[i].0 == ms[i].0);
                value_there_and_back(entries[i].1);
            }
            assert(members_from_json(ms, ms.len()) =~= entries) by {
                assert forall|i: int| 0 <= i < entries.len() implies members_from_json(
                    ms,
                    ms.len(),
                )[i] == entries[i] by {
                    assert(entries[i].0 == ms[i].0);
                    assert(from_json(ms[i].1) == entries[i].1);
                }
            }
        },
        _ => {},
    }
}

} // verus!
