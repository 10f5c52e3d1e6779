//! The graph database that a system is held in.

use agdb::{
    KeyValueComparison, QueryBuilder, QueryCondition, QueryConditionData, QueryConditionLogic,
    QueryConditionModifier,
};
use vstd::prelude::*;

verus! {

// ---------------------------------------------------------------------------
// What a database holds
// ---------------------------------------------------------------------------

/// The properties of an element, in order.
pub type Properties = Seq<(Seq<char>, Seq<char>)>;

/// An element: for an edge where it comes from and goes to, for a node twice
/// nothing; and its properties.
pub type Element = (int, int, Properties);

/// The value of the first property with a key.
pub open spec fn property(values: Properties, key: Seq<char>) -> Option<Seq<char>>
    decreases values.len(),
{
    if values.len() == 0 {
        None
    } else if values[0].0 == key {
        Some(values[0].1)
    } else {
        property(values.skip(1), key)
    }
}

/// The position of an element, given its identifier: nodes have positive ones,
/// edges negative ones.
pub open spec fn position(id: int) -> int {
    if id < 0 {
        -id - 1
    } else {
        id - 1
    }
}

/// Whether an identifier is that of an element.
pub open spec fn is_element(contents: Seq<Element>, id: int) -> bool {
    &&& id != 0
    &&& position(id) < contents.len()
    &&& id > 0 <==> contents[position(id)].0 == 0
}

/// Whether an identifier is that of a node.
pub open spec fn is_node(contents: Seq<Element>, id: int) -> bool {
    id > 0 && is_element(contents, id)
}

/// Whether an element has all wanted properties.
pub open spec fn matches(values: Properties, wanted: Properties) -> bool {
    forall|i: int|
        0 <= i < wanted.len() ==> property(values, (#[trigger] wanted[i]).0) == Some(
            wanted[i].1,
        )
}

/// The identifiers of the elements that have all wanted properties, in order.
pub open spec fn matching(contents: Seq<Element>, ids: Seq<int>, wanted: Properties) -> Seq<int>
    decreases ids.len(),
{
    if ids.len() == 0 {
        seq![]
    } else {
        let rest = matching(contents, ids.drop_last(), wanted);
        if matches(contents[position(ids.last())].2, wanted) {
            rest.push(ids.last())
        } else {
            rest
        }
    }
}

/// Whether an element comes right after another one along the edges: an edge
/// after the node that it comes from, a node after an edge that goes to it.
pub open spec fn is_next(contents: Seq<Element>, a: int, b: int) -> bool {
    if a > 0 {
        b < 0 && contents[position(b)].0 == a
    } else {
        b == contents[position(a)].1
    }
}

/// Whether some elements follow one another along the edges.
pub open spec fn is_way(contents: Seq<Element>, way: Seq<int>) -> bool {
    &&& forall|i: int| 0 <= i < way.len() ==> is_element(contents, #[trigger] way[i])
    &&& forall|i: int, j: int|
        #![trigger way[i], way[j]]
        0 <= i && j == i + 1 && j < way.len() ==> is_next(contents, way[i], way[j])
}

/// Whether a way leads from an element to another one.
pub open spec fn is_way_between(contents: Seq<Element>, from: int, to: int, way: Seq<int>) -> bool {
    way.len() > 0 && way[0] == from && way.last() == to && is_way(contents, way)
}

/// Whether the edges lead from an element to another one.
pub open spec fn leads_to(contents: Seq<Element>, from: int, to: int) -> bool {
    exists|way: Seq<int>| #[trigger] is_way_between(contents, from, to, way)
}

/// Whether some elements are those that the edges lead to from a node, each once.
pub open spec fn lists_reachable(contents: Seq<Element>, from: int, ids: Seq<int>) -> bool {
    &&& ids.no_duplicates()
    &&& forall|id: int| #[trigger] ids.contains(id) <==> leads_to(contents, from, id)
}

// ---------------------------------------------------------------------------
// The database
// ---------------------------------------------------------------------------

/// `agdb::DbMemory`, a graph database in memory.
#[verifier::external_body]
pub struct GraphStore {
    db: agdb::DbMemory,
}

/// What a database holds, in the order of insertion.
pub uninterp spec fn stored(store: GraphStore) -> Seq<Element>;

/// The elements that `agdb` meets from a node when it goes along the edges,
/// deep before wide, in order.
pub uninterp spec fn depth_first(contents: Seq<Element>, from: int) -> Seq<int>;

/// The elements that `agdb` meets from a node when it goes along the edges, wide
/// before deep, in order.
pub uninterp spec fn breadth_first(contents: Seq<Element>, from: int) -> Seq<int>;

/// `agdb::DbError`, why the database refused.
#[verifier::external_type_specification]
#[verifier::external_body]
pub struct ExDbError(agdb::DbError);

/// An element that was found.
#[derive(Debug)]
pub struct Found {
    pub id: i64,
    pub from: i64,
    pub to: i64,
    pub values: Vec<(String, String)>,
}

/// The view of properties.
pub open spec fn property_views(values: Seq<(String, String)>) -> Properties {
    Seq::new(values.len(), |i: int| (values[i].0@, values[i].1@))
}

/// Whether elements that were found are those with some identifiers: positive
/// numbers, or negated ones.
pub open spec fn found_are(contents: Seq<Element>, found: Seq<Found>, ids: Seq<int>) -> bool {
    &&& found.len() == ids.len()
    &&& forall|i: int|
        0 <= i < found.len() ==> {
            let f = #[trigger] found[i];
            &&& f.id == ids[i]
            &&& f.id > i64::MIN
            &&& is_element(contents, f.id as int)
            &&& property_views(f.values@) == contents[position(f.id as int)].2
            &&& f.id < 0 ==> f.from == contents[position(f.id as int)].0 && f.to
                == contents[position(f.id as int)].1
        }
}

/// `agdb::DbMemory::new` without a file: the database holds nothing. It asks the
/// file system first, so when it succeeds is not stated.
#[verifier::external_body]
pub(crate) fn open_store() -> (r: Result<GraphStore, agdb::DbError>)
    ensures
        r is Ok ==> stored(r->Ok_0) == Seq::<Element>::empty(),
{
    Ok(GraphStore { db: agdb::DbMemory::new("")? })
}

/// `agdb::DbMemory::exec_mut` with `agdb::QueryBuilder::insert().nodes()`: one
/// node is added with its properties, and its identifier is the number of
/// elements then. Nothing in memory refuses that.
#[verifier::external_body]
pub(crate) fn insert_node(store: &mut GraphStore, values: &Vec<(String, String)>) -> (r: Result<
    i64,
    agdb::DbError,
>)
    ensures
        r is Ok,
        r->Ok_0 == stored(*old(store)).len() + 1,
        stored(*final(store)) == stored(*old(store)).push((0, 0, property_views(values@))),
{
    let pairs: Vec<agdb::DbKeyValue> =
        values.iter().map(|(k, v)| (k.as_str(), v.as_str()).into()).collect();
    let query = QueryBuilder::insert().nodes().values([pairs]).query();
    Ok(store.db.exec_mut(query)?.ids()[0].0)
}

/// `agdb::DbMemory::exec_mut` with `agdb::QueryBuilder::insert().edges()`: one
/// edge between two nodes is added with its properties, and its identifier is
/// the number of elements then, negated. It fails exactly where one of the nodes
/// is missing, and nothing is changed then.
#[verifier::external_body]
pub(crate) fn insert_edge(store: &mut GraphStore, from: i64, to: i64, values: &Vec<(String, String)>) -> (r:
    Result<i64, agdb::DbError>)
    requires
        from > i64::MIN,
        to > i64::MIN,
    ensures
        match r {
            Ok(id) => {
                &&& is_node(stored(*old(store)), from as int)
                &&& is_node(stored(*old(store)), to as int)
                &&& id == -(stored(*old(store)).len() + 1)
                &&& stored(*final(store)) == stored(*old(store)).push(
                    (from as int, to as int, property_views(values@)),
                )
            },
            Err(_) => {
                &&& !(is_node(stored(*old(store)), from as int) && is_node(
                    stored(*old(store)),
                    to as int,
                ))
                &&& stored(*final(store)) == stored(*old(store))
            },
        },
{
    let pairs: Vec<agdb::DbKeyValue> =
        values.iter().map(|(k, v)| (k.as_str(), v.as_str()).into()).collect();
    let query =
        QueryBuilder::insert().edges().from(from).to(to).values([pairs]).query();
    Ok(store.db.exec_mut(query)?.ids()[0].0)
}

/// `agdb::DbMemory::exec` with `agdb::QueryBuilder::select().values(..).ids(..)`
/// for one key and one element: the value of the first property with the key. It
/// fails exactly where the element or the property is missing.
#[verifier::external_body]
pub(crate) fn select_value(store: &GraphStore, id: i64, key: &str) -> (r: Result<
    Option<String>,
    agdb::DbError,
>)
    requires
        id > i64::MIN,
    ensures
        match r {
            Ok(value) => {
                &&& is_element(stored(*store), id as int)
                &&& value is Some
                &&& value.deep_view() == property(stored(*store)[position(id as int)].2, key@)
            },
            Err(_) => !is_element(stored(*store), id as int) || property(
                stored(*store)[position(id as int)].2,
                key@,
            ) is None,
        },
{
    let result = store.db.exec(QueryBuilder::select().values([key]).ids(id).query())?;
    let first = result.elements.first().and_then(|e| e.values.first());
    Ok(first.map(|kv| kv.value.to_string()))
}

/// `agdb::DbMemory::exec` with a depth first `agdb::SearchQuery` whose conditions
/// are equalities of properties: the elements met from a node that have all
/// wanted properties. From a node, those met are the elements that the edges lead
/// to, each once, the node among them. It fails exactly where the element to begin
/// with is missing. In which order the elements are met, and what is met from an
/// edge, is not stated.
#[verifier::external_body]
pub(crate) fn search_depth_first(store: &GraphStore, from: i64, wanted: &Vec<(String, String)>) -> (r:
    Result<Vec<Found>, agdb::DbError>)
    requires
        from > i64::MIN,
    ensures
        match r {
            Ok(found) => {
                &&& is_element(stored(*store), from as int)
                &&& found_are(
                    stored(*store),
                    found@,
                    matching(
                        stored(*store),
                        depth_first(stored(*store), from as int),
                        property_views(wanted@),
                    ),
                )
                &&& is_node(stored(*store), from as int) ==> lists_reachable(
                    stored(*store),
                    from as int,
                    depth_first(stored(*store), from as int),
                )
            },
            Err(_) => !is_element(stored(*store), from as int),
        },
{
    let mut search = QueryBuilder::search().depth_first().from(from).query();
    search.conditions = wanted.iter().map(|(k, v)| QueryCondition {
        logic: QueryConditionLogic::And,
        modifier: QueryConditionModifier::None,
        data: QueryConditionData::KeyValue(KeyValueComparison {
            key: k.into(), value: v.into(),
        }),
    }).collect();
    Ok(store.db.exec(QueryBuilder::select().ids(search).query())?.elements.iter().map(|e| Found {
        id: e.id.0, from: e.from.0, to: e.to.0,
        values: e.values.iter().map(|kv| (kv.key.to_string(), kv.value.to_string())).collect(),
    }).collect())
}

/// `agdb::DbMemory::exec` with a breadth first `agdb::SearchQuery` without
/// conditions: the elements met from a node. These are the elements that the edges
/// lead to, each once, the node among them. It fails exactly where the element to
/// begin with is missing. In which order the elements are met, and what is met from
/// an edge, is not stated.
#[verifier::external_body]
pub(crate) fn search_breadth_first(store: &GraphStore, from: i64) -> (r: Result<
    Vec<Found>,
    agdb::DbError,
>)
    requires
        from > i64::MIN,
    ensures
        match r {
            Ok(found) => {
                &&& is_element(stored(*store), from as int)
                &&& found_are(
                    stored(*store),
                    found@,
                    breadth_first(stored(*store), from as int),
                )
                &&& is_node(stored(*store), from as int) ==> lists_reachable(
                    stored(*store),
                    from as int,
                    breadth_first(stored(*store), from as int),
                )
            },
            Err(_) => !is_element(stored(*store), from as int),
        },
{
    let search = QueryBuilder::search().from(from).query();
    Ok(store.db.exec(QueryBuilder::select().ids(search).query())?.elements.iter().map(|e| Found {
        id: e.id.0, from: e.from.0, to: e.to.0,
        values: e.values.iter().map(|kv| (kv.key.to_string(), kv.value.to_string())).collect(),
    }).collect())
}

} // verus!
