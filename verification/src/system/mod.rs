//! A system as a graph of deployed things, held in a graph database.

pub mod laws;
pub mod pretty;
pub mod store;

use vstd::prelude::*;

use crate::guidance::{self, critical, level_for, needed_guides, wording, FocusTaxonomy, GuideLevel, Wording};
use crate::system::store::{
    insert_edge, insert_node, open_store, search_depth_first, select_value, Element, Found,
    GraphStore, Properties,
};
use crate::text;

verus! {

// ---------------------------------------------------------------------------
// Plain data
// ---------------------------------------------------------------------------

/// Why something cannot be done with a node.
#[derive(Debug, Clone, Copy, PartialEq, Eq, Structural)]
pub enum NodeError {
    InvalidNode,
    GuidanceRequired,
}

/// What a node stands for.
#[derive(Debug, Clone, Copy, PartialEq, Eq, Structural)]
pub enum NodeKind {
    Deployment,
    Resource,
    Property,
    Value,
    Export,
}

/// Where a node is deployed.
#[derive(Debug, Clone, Copy, PartialEq, Eq, Structural)]
pub enum Provider {
    AWS,
    Azure,
    GCP,
}

impl Provider {
    /// The name of a provider.
    pub open spec fn name(self) -> Seq<char> {
        match self {
            Provider::AWS => "AWS"@,
            Provider::Azure => "Azure"@,
            Provider::GCP => "GCP"@,
        }
    }

    /// The name of a provider.
    pub fn as_str(&self) -> (r: &'static str)
        ensures
            r@ == self.name(),
    {
        match self {
            Provider::AWS => "AWS",
            Provider::Azure => "Azure",
            Provider::GCP => "GCP",
        }
    }
}

impl NodeKind {
    /// The name of a kind of node.
    pub open spec fn name(self) -> Seq<char> {
        match self {
            NodeKind::Deployment => "Deployment"@,
            NodeKind::Resource => "Resource"@,
            NodeKind::Property => "Property"@,
            NodeKind::Value => "Value"@,
            NodeKind::Export => "Export"@,
        }
    }

    /// The name of a kind of node.
    pub fn as_str(&self) -> (r: &'static str)
        ensures
            r@ == self.name(),
    {
        match self {
            NodeKind::Deployment => "Deployment",
            NodeKind::Resource => "Resource",
            NodeKind::Property => "Property",
            NodeKind::Value => "Value",
            NodeKind::Export => "Export",
        }
    }
}

/// A node with its identifier.
#[derive(Debug)]
pub struct Node {
    pub db_id: i64,
    pub kind: String,
    pub provider: String,
}

/// An edge, with its identifier where it is stored.
#[derive(Debug)]
pub struct Edge {
    pub db_id: Option<i64>,
    pub kind: String,
}

/// Why the database did not do what was asked.
#[derive(Debug)]
pub struct StoreError {
    /// What the database says.
    pub cause: agdb::DbError,
}

/// An error of the database.
fn refused(error: agdb::DbError) -> (r: StoreError)
    ensures
        r.cause == error,
{
    StoreError { cause: error }
}

/// The answer of the database: what it gave, or why it refused.
pub fn answer<T>(given: Result<T, agdb::DbError>) -> (r: Result<T, StoreError>)
    ensures
        match given {
            Ok(value) => r == Ok::<T, StoreError>(value),
            Err(error) => r is Err && r->Err_0.cause == error,
        },
{
    match given {
        Ok(value) => Ok(value),
        Err(error) => Err(refused(error)),
    }
}

/// Advice on a node.
#[derive(Debug)]
pub struct Guide {
    pub node: i64,
    pub logical_id: String,
    pub level: GuideLevel,
    pub focus: FocusTaxonomy,
    pub tldr: String,
    pub message: String,
    pub why: String,
}

/// What a guide says.
pub struct NodeGuide {
    pub node: int,
    pub logical_id: Seq<char>,
    pub level: GuideLevel,
    pub focus: FocusTaxonomy,
    pub tldr: Seq<char>,
    pub message: Seq<char>,
    pub why: Seq<char>,
}

impl View for Guide {
    type V = NodeGuide;

    open spec fn view(&self) -> NodeGuide {
        NodeGuide {
            node: self.node as int,
            logical_id: self.logical_id@,
            level: self.level,
            focus: self.focus,
            tldr: self.tldr@,
            message: self.message@,
            why: self.why@,
        }
    }
}

/// What some guides say.
pub open spec fn guide_views(list: Seq<Guide>) -> Seq<NodeGuide> {
    Seq::new(list.len(), |i: int| list[i]@)
}

// ---------------------------------------------------------------------------
// What a system says
// ---------------------------------------------------------------------------

/// The properties of a new node.
pub open spec fn node_values(kind: Seq<char>, provider: Seq<char>, attrs: Properties) -> Properties {
    seq![("kind"@, kind), ("provider"@, provider)] + attrs
}

/// The elements met from one, deep before wide, that have all wanted properties.
pub open spec fn met(contents: Seq<Element>, from: int, wanted: Properties) -> Seq<int> {
    store::matching(contents, store::depth_first(contents, from), wanted)
}

/// Whether the edges lead from an element to one that has all wanted properties.
pub open spec fn has_below(contents: Seq<Element>, from: int, id: int, wanted: Properties) -> bool {
    store::leads_to(contents, from, id) && store::matches(
        contents[store::position(id)].2,
        wanted,
    )
}

/// Whether a search from an element finds all that the edges lead to and that has
/// the wanted properties, each once, and nothing else.
pub open spec fn finds_all(contents: Seq<Element>, from: int, wanted: Properties) -> bool {
    &&& met(contents, from, wanted).no_duplicates()
    &&& forall|id: int|
        #![trigger met(contents, from, wanted).contains(id)]
        #![trigger has_below(contents, from, id, wanted)]
        met(contents, from, wanted).contains(id) <==> has_below(contents, from, id, wanted)
}

/// Whether an element is the only one with the wanted properties that the edges
/// lead to.
pub open spec fn is_only_below(contents: Seq<Element>, from: int, id: int, wanted: Properties) -> bool {
    &&& has_below(contents, from, id, wanted)
    &&& forall|other: int| #[trigger] has_below(contents, from, other, wanted) ==> other == id
}

/// What a list of tags is stored as.
pub open spec fn list_values() -> Properties {
    seq![("name"@, "tags"@)]
}

/// What a tag with a key is stored as.
pub open spec fn key_values(key: Seq<char>) -> Properties {
    seq![("key"@, key)]
}

/// Whether a value is that of a tag of a node: nothing where no list of tags is
/// below the node, or no tag with the key below the only list; what the tag says
/// where it is the only one with its key below the only list.
pub open spec fn is_tag_below(
    contents: Seq<Element>,
    node: int,
    key: Seq<char>,
    value: Option<Seq<char>>,
) -> bool {
    &&& (forall|list: int| !#[trigger] has_below(contents, node, list, list_values()))
        ==> value is None
    &&& forall|list: int, tag: int|
        #![trigger is_only_below(contents, node, list, list_values()), is_only_below(contents, list, tag, key_values(key))]
        is_only_below(contents, node, list, list_values()) && store::is_node(contents, list)
            && is_only_below(contents, list, tag, key_values(key)) ==> value
            == store::property(contents[store::position(tag)].2, "value"@)
    &&& forall|list: int|
        #![trigger is_only_below(contents, node, list, list_values())]
        is_only_below(contents, node, list, list_values()) && store::is_node(contents, list) && (
        forall|tag: int| !#[trigger] has_below(contents, list, tag, key_values(key))) ==> value
            is None
}

/// The value of a tag of a resource: the property `value` of the first element
/// with that key below the first element called `tags` below the resource.
pub open spec fn tag_in(contents: Seq<Element>, resource: int, key: Seq<char>) -> Option<Seq<char>> {
    let lists = met(contents, resource, list_values());
    if lists.len() == 0 {
        None
    } else {
        let tags = met(contents, lists[0], key_values(key));
        if tags.len() == 0 {
            None
        } else {
            store::property(contents[store::position(tags[0])].2, "value"@)
        }
    }
}

/// What evidence of a kind is stored as.
pub open spec fn evidence_values(name: Seq<char>) -> Properties {
    seq![("provider"@, "wa2"@), ("kind"@, "Evidence"@), ("value"@, name)]
}

/// Whether there is evidence of a kind below a resource.
pub open spec fn is_evident(contents: Seq<Element>, resource: int, name: Seq<char>) -> bool {
    met(contents, resource, evidence_values(name)).len() > 0
}

/// The nodes of a kind with a property, as they are met from the first node.
pub open spec fn nodes_with(
    contents: Seq<Element>,
    kind: Seq<char>,
    key: Seq<char>,
    value: Seq<char>,
) -> Seq<int> {
    met(contents, 1, seq![("kind"@, kind), (key, value)])
}

/// A guide on a subject for a node with a logical identifier.
pub open spec fn guide_about(node: int, logical_id: Seq<char>, focus: FocusTaxonomy) -> NodeGuide {
    NodeGuide {
        node,
        logical_id,
        level: guidance::level_of(focus),
        focus,
        tldr: guidance::tldr_of(focus),
        message: guidance::message_of(focus),
        why: guidance::why_of(focus),
    }
}

/// A guide on a subject for a node.
pub open spec fn guide_on(contents: Seq<Element>, node: int, focus: FocusTaxonomy) -> NodeGuide {
    guide_about(
        node,
        store::property(contents[store::position(node)].2, "logical_id"@)->0,
        focus,
    )
}

/// The subjects on which a store needs a guide.
pub open spec fn foci_for(contents: Seq<Element>, node: int) -> Seq<FocusTaxonomy> {
    guidance::needed(
        tag_in(contents, node, "DataSensitivity"@) is Some,
        tag_in(contents, node, "DataCriticality"@) is Some,
        tag_in(contents, node, "DataCriticality"@),
        is_evident(contents, node, "DataResiliance"@),
    )
}

/// The guides for a store.
pub open spec fn guides_for(contents: Seq<Element>, node: int) -> Seq<NodeGuide> {
    let list = foci_for(contents, node);
    Seq::new(list.len(), |i: int| guide_on(contents, node, list[i]))
}

/// The guides for some stores, store by store.
pub open spec fn guides_for_all(contents: Seq<Element>, nodes: Seq<int>) -> Seq<NodeGuide>
    decreases nodes.len(),
{
    if nodes.len() == 0 {
        seq![]
    } else {
        guides_for_all(contents, nodes.drop_last()) + guides_for(contents, nodes.last())
    }
}

/// The stores of a system.
pub open spec fn stores_of(contents: Seq<Element>) -> Seq<int> {
    nodes_with(contents, "Resource"@, "wa2_kind"@, "Store"@)
}

/// The guides for a system.
pub open spec fn guides_in(contents: Seq<Element>) -> Seq<NodeGuide> {
    guides_for_all(contents, stores_of(contents))
}

/// Whether a store has a logical identifier, where it needs a guide.
pub open spec fn is_named(contents: Seq<Element>, node: int) -> bool {
    foci_for(contents, node).len() > 0 ==> store::property(
        contents[store::position(node)].2,
        "logical_id"@,
    ) is Some
}

/// Whether all stores that need a guide have a logical identifier.
pub open spec fn all_named(contents: Seq<Element>, nodes: Seq<int>) -> bool {
    forall|i: int| 0 <= i < nodes.len() ==> is_named(contents, #[trigger] nodes[i])
}

/// Whether some identifiers are those of elements.
pub open spec fn all_elements(contents: Seq<Element>, ids: Seq<i64>) -> bool {
    forall|i: int|
        0 <= i < ids.len() ==> (#[trigger] ids[i]) > i64::MIN && store::is_element(
            contents,
            ids[i] as int,
        )
}

// ---------------------------------------------------------------------------
// The system
// ---------------------------------------------------------------------------

/// A graph of deployed things.
pub struct System {
    db: GraphStore,
}

impl View for System {
    type V = Seq<Element>;

    closed spec fn view(&self) -> Seq<Element> {
        store::stored(self.db)
    }
}

/// A property.
fn pair(key: &str, value: &str) -> (r: (String, String))
    ensures
        r.0@ == key@,
        r.1@ == value@,
{
    (key.to_owned(), value.to_owned())
}

/// The value of the first property with a key.
pub fn find_property(values: &Vec<(String, String)>, key: &str) -> (r: Option<String>)
    ensures
        r.deep_view() == store::property(store::property_views(values@), key@),
{
    let ghost all = store::property_views(values@);
    assert(all.skip(0) =~= all);
    for i in 0..values.len()
        invariant
            all == store::property_views(values@),
            store::property(all, key@) == store::property(all.skip(i as int), key@),
    {
        assert(all.skip(i as int)[0] == (values@[i as int].0@, values@[i as int].1@));
        assert(all.skip(i as int).skip(1) =~= all.skip(i + 1));
        if text::same_text(values[i].0.as_str(), key) {
            return Some(values[i].1.clone());
        }
    }
    None
}

/// The identifier of the first element that was found.
pub fn first_id(found: &Vec<Found>) -> (r: Option<i64>)
    ensures
        r == if found@.len() == 0 {
            None
        } else {
            Some(found@[0].id)
        },
{
    if found.len() == 0 {
        None
    } else {
        Some(found[0].id)
    }
}

/// The value of a property of the first element that was found.
pub fn first_value(found: &Vec<Found>, key: &str) -> (r: Option<String>)
    ensures
        r.deep_view() == if found@.len() == 0 {
            None
        } else {
            store::property(store::property_views(found@[0].values@), key@)
        },
{
    if found.len() == 0 {
        None
    } else {
        find_property(&found[0].values, key)
    }
}

/// The identifiers of the elements that were found.
pub fn found_ids(found: &Vec<Found>) -> (r: Vec<i64>)
    ensures
        r@.len() == found@.len(),
        forall|i: int| 0 <= i < r@.len() ==> #[trigger] r@[i] == found@[i].id,
{
    let mut ids: Vec<i64> = Vec::new();
    for i in 0..found.len()
        invariant
            ids@.len() == i,
            forall|k: int| 0 <= k < i ==> #[trigger] ids@[k] == found@[k].id,
    {
        ids.push(found[i].id);
    }
    ids
}

/// Guides on some subjects for a node with a logical identifier.
pub fn guides_about(node: i64, logical_id: &str, foci: &Vec<FocusTaxonomy>) -> (r: Vec<Guide>)
    ensures
        guide_views(r@) == foci@.map_values(
            |focus: FocusTaxonomy| guide_about(node as int, logical_id@, focus),
        ),
{
    let ghost all = foci@.map_values(
        |focus: FocusTaxonomy| guide_about(node as int, logical_id@, focus),
    );
    let mut guides: Vec<Guide> = Vec::new();
    assert(guide_views(guides@) =~= all.take(0));
    for k in 0..foci.len()
        invariant
            all == foci@.map_values(
                |focus: FocusTaxonomy| guide_about(node as int, logical_id@, focus),
            ),
            guide_views(guides@) == all.take(k as int),
    {
        let ghost before = guide_views(guides@);
        let focus = foci[k];
        let Wording { tldr, message, why } = wording(focus);
        let guide = Guide {
            node,
            logical_id: logical_id.to_owned(),
            level: level_for(focus),
            focus,
            tldr: tldr.to_owned(),
            message: message.to_owned(),
            why: why.to_owned(),
        };
        assert(guide@ == all[k as int]);
        guides.push(guide);
        assert(guide_views(guides@) =~= before.push(all[k as int]));
        assert(all.take(k + 1) =~= all.take(k as int).push(all[k as int]));
    }
    assert(all.take(all.len() as int) =~= all);
    guides
}

impl System {
    /// A system without nodes.
    pub fn new() -> (r: Result<Self, StoreError>)
        ensures
            r is Ok ==> r->Ok_0@ == Seq::<Element>::empty(),
    {
        let db = answer(open_store())?;
        Ok(System { db })
    }

    /// Adds a node; its identifier is the number of elements then.
    pub fn add_node(&mut self, kind: &str, provider: &str, attrs: &Vec<(String, String)>) -> (r: Result<
        i64,
        StoreError,
    >)
        ensures
            r is Ok,
            r->Ok_0 == old(self)@.len() + 1,
            final(self)@ == old(self)@.push(
                (0, 0, node_values(kind@, provider@, store::property_views(attrs@))),
            ),
    {
        let ghost given = store::property_views(attrs@);
        let ghost all = node_values(kind@, provider@, given);
        let mut values: Vec<(String, String)> = Vec::new();
        values.push(pair("kind", kind));
        values.push(pair("provider", provider));
        assert(store::property_views(values@) =~= all.take(2));
        for i in 0..attrs.len()
            invariant
                given == store::property_views(attrs@),
                all == node_values(kind@, provider@, given),
                store::property_views(values@) == all.take(2 + i),
        {
            let ghost before = store::property_views(values@);
            values.push(pair(attrs[i].0.as_str(), attrs[i].1.as_str()));
            assert(all[2 + i] == given[i as int]);
            assert(store::property_views(values@) =~= before.push(all[2 + i]));
            assert(all.take(3 + i) =~= all.take(2 + i).push(all[2 + i]));
        }
        assert(all.take(all.len() as int) =~= all);
        answer(insert_node(&mut self.db, &values))
    }

    /// Adds an edge between two nodes; its identifier is the number of elements
    /// then, negated. It fails exactly where a node is missing, and changes nothing
    /// then.
    pub fn add_edge(&mut self, kind: &str, from: i64, to: i64) -> (r: Result<i64, StoreError>)
        requires
            from > i64::MIN,
            to > i64::MIN,
        ensures
            match r {
                Ok(id) => {
                    &&& store::is_node(old(self)@, from as int)
                    &&& store::is_node(old(self)@, to as int)
                    &&& id == -(old(self)@.len() + 1)
                    &&& final(self)@ == old(self)@.push(
                        (from as int, to as int, seq![("kind"@, kind@)]),
                    )
                },
                Err(_) => {
                    &&& !(store::is_node(old(self)@, from as int) && store::is_node(
                        old(self)@,
                        to as int,
                    ))
                    &&& final(self)@ == old(self)@
                },
            },
    {
        let values: Vec<(String, String)> = vec![pair("kind", kind)];
        assert(store::property_views(values@) =~= seq![("kind"@, kind@)]);
        answer(insert_edge(&mut self.db, from, to, &values))
    }

    /// The value of the first property of an element with a key. It fails exactly
    /// where the element or the property is missing.
    pub fn get_attr(&self, id: i64, key: &str) -> (r: Result<Option<String>, StoreError>)
        requires
            id > i64::MIN,
        ensures
            match r {
                Ok(value) => {
                    &&& store::is_element(self@, id as int)
                    &&& value is Some
                    &&& value.deep_view() == store::property(
                        self@[store::position(id as int)].2,
                        key@,
                    )
                },
                Err(_) => !store::is_element(self@, id as int) || store::property(
                    self@[store::position(id as int)].2,
                    key@,
                ) is None,
            },
    {
        answer(select_value(&self.db, id, key))
    }

    /// The logical identifier of a node. It fails exactly where there is none.
    pub fn get_logical_id(&self, id: i64) -> (r: Result<Option<String>, StoreError>)
        requires
            id > i64::MIN,
        ensures
            match r {
                Ok(value) => {
                    &&& store::is_element(self@, id as int)
                    &&& value is Some
                    &&& value.deep_view() == store::property(
                        self@[store::position(id as int)].2,
                        "logical_id"@,
                    )
                },
                Err(_) => !store::is_element(self@, id as int) || store::property(
                    self@[store::position(id as int)].2,
                    "logical_id"@,
                ) is None,
            },
    {
        self.get_attr(id, "logical_id")
    }

    /// The elements met from one, deep before wide, that have all wanted
    /// properties. It fails exactly where the element is missing.
    fn search(&self, from: i64, wanted: &Vec<(String, String)>) -> (r: Result<Vec<Found>, StoreError>)
        requires
            from > i64::MIN,
        ensures
            match r {
                Ok(found) => {
                    &&& store::is_element(self@, from as int)
                    &&& store::found_are(
                        self@,
                        found@,
                        met(self@, from as int, store::property_views(wanted@)),
                    )
                    &&& store::is_node(self@, from as int) ==> finds_all(
                        self@,
                        from as int,
                        store::property_views(wanted@),
                    )
                },
                Err(_) => !store::is_element(self@, from as int),
            },
    {
        let r = answer(search_depth_first(&self.db, from, wanted));
        proof {
            if r is Ok && store::is_node(self@, from as int) {
                laws::lemma_search_finds_all(
                    self@,
                    from as int,
                    store::property_views(wanted@),
                );
            }
        }
        r
    }

    /// The value of a tag of a resource. It fails exactly where the resource is
    /// missing.
    pub fn get_tag(&self, resource_id: i64, tag_key: &str) -> (r: Result<Option<String>, StoreError>)
        requires
            resource_id > i64::MIN,
        ensures
            match r {
                Ok(value) => {
                    &&& store::is_element(self@, resource_id as int)
                    &&& value.deep_view() == tag_in(self@, resource_id as int, tag_key@)
                    &&& store::is_node(self@, resource_id as int) ==> is_tag_below(
                        self@,
                        resource_id as int,
                        tag_key@,
                        value.deep_view(),
                    )
                },
                Err(_) => !store::is_element(self@, resource_id as int),
            },
    {
        let wanted: Vec<(String, String)> = vec![pair("name", "tags")];
        assert(store::property_views(wanted@) =~= list_values());
        let lists = self.search(resource_id, &wanted)?;
        let ghost all = met(self@, resource_id as int, list_values());
        let tags_id: i64 = match first_id(&lists) {
            Some(id) => id,
            None => {
                assert(forall|list: int| !all.contains(list));
                return Ok(None);
            },
        };
        assert(lists@[0].id == all[0] && all.contains(all[0]));
        let wanted: Vec<(String, String)> = vec![pair("key", tag_key)];
        assert(store::property_views(wanted@) =~= key_values(tag_key@));
        let tags = self.search(tags_id, &wanted)?;
        proof {
            let below = met(self@, tags_id as int, key_values(tag_key@));
            if below.len() > 0 {
                assert(tags@[0].id == below[0] && below.contains(below[0]));
            } else {
                assert(forall|tag: int| !below.contains(tag));
            }
        }
        Ok(first_value(&tags, "value"))
    }

    /// Whether there is evidence of a kind below a resource. It fails exactly where
    /// the resource is missing.
    pub fn has_evidence(&self, resource_id: i64, evidence_name: &str) -> (r: Result<bool, StoreError>)
        requires
            resource_id > i64::MIN,
        ensures
            match r {
                Ok(evident) => {
                    &&& store::is_element(self@, resource_id as int)
                    &&& evident == is_evident(self@, resource_id as int, evidence_name@)
                    &&& store::is_node(self@, resource_id as int) ==> (evident <==> exists|id: int|
                        #[trigger] has_below(
                            self@,
                            resource_id as int,
                            id,
                            evidence_values(evidence_name@),
                        ))
                },
                Err(_) => !store::is_element(self@, resource_id as int),
            },
    {
        let wanted: Vec<(String, String)> = vec![
            pair("provider", "wa2"),
            pair("kind", "Evidence"),
            pair("value", evidence_name),
        ];
        assert(store::property_views(wanted@) =~= evidence_values(evidence_name@));
        let found = self.search(resource_id, &wanted)?;
        proof {
            let all = met(self@, resource_id as int, evidence_values(evidence_name@));
            if all.len() > 0 {
                assert(all.contains(all[0]));
            } else {
                assert(forall|id: int| !all.contains(id));
            }
        }
        Ok(found.len() > 0)
    }

    /// The nodes of a kind with a property, as they are met from the first node. It
    /// fails exactly where there is no first node.
    pub fn find_nodes(&self, kind: &str, attr_key: &str, attr_value: &str) -> (r: Result<
        Vec<i64>,
        StoreError,
    >)
        ensures
            match r {
                Ok(ids) => {
                    &&& store::is_node(self@, 1)
                    &&& id_views(ids@) == nodes_with(self@, kind@, attr_key@, attr_value@)
                    &&& all_elements(self@, ids@)
                    &&& finds_all(self@, 1, seq![("kind"@, kind@), (attr_key@, attr_value@)])
                },
                Err(_) => !store::is_node(self@, 1),
            },
    {
        let wanted: Vec<(String, String)> = vec![pair("kind", kind), pair(attr_key, attr_value)];
        assert(store::property_views(wanted@) =~= seq![
            ("kind"@, kind@),
            (attr_key@, attr_value@),
        ]);
        let found = self.search(1, &wanted)?;
        let ids = found_ids(&found);
        assert(id_views(ids@) =~= nodes_with(self@, kind@, attr_key@, attr_value@));
        assert forall|i: int| 0 <= i < ids@.len() implies (#[trigger] ids@[i]) > i64::MIN
            && store::is_element(self@, ids@[i] as int) by {
            assert(found@[i].id == ids@[i]);
        }
        Ok(ids)
    }

    /// Takes an annotation of a node. Annotations are not kept.
    pub fn annotate<A>(&mut self, id: i64, annotation: A) -> (r: Result<(), NodeError>)
        ensures
            r is Ok,
            final(self)@ == old(self)@,
    {
        Ok(())
    }

    /// The guides for the stores of a system, store by store. It fails exactly where
    /// there is no first node, or a store that needs a guide has no logical
    /// identifier.
    pub fn guidance(&self) -> (r: Result<Vec<Guide>, StoreError>)
        ensures
            match r {
                Ok(guides) => {
                    &&& store::is_node(self@, 1)
                    &&& all_named(self@, stores_of(self@))
                    &&& guide_views(guides@) == guides_in(self@)
                },
                Err(_) => !store::is_node(self@, 1) || !all_named(self@, stores_of(self@)),
            },
    {
        let stores = self.find_nodes("Resource", "wa2_kind", "Store")?;
        let ghost all = id_views(stores@);
        let mut guides: Vec<Guide> = Vec::new();
        assert(guide_views(guides@) =~= seq![]);
        for i in 0..stores.len()
            invariant
                all == id_views(stores@),
                all == stores_of(self@),
                all_elements(self@, stores@),
                guide_views(guides@) == guides_for_all(self@, all.take(i as int)),
                all_named(self@, all.take(i as int)),
        {
            assert(all.take(i + 1).drop_last() =~= all.take(i as int));
            assert(all.take(i + 1).last() == stores@[i as int]);
            let ghost before = guide_views(guides@);
            assert(all[i as int] == stores@[i as int]);
            let mut more = self.guides_for_store(stores[i])?;
            assert forall|k: int| 0 <= k <= i implies is_named(
                self@,
                #[trigger] all.take(i + 1)[k],
            ) by {
                if k < i {
                    assert(all.take(i + 1)[k] == all.take(i as int)[k]);
                }
            }
            let ghost added = guide_views(more@);
            guides.append(&mut more);
            assert(guide_views(guides@) =~= before + added);
        }
        assert(all.take(all.len() as int) =~= all);
        Ok(guides)
    }

    /// The guides for a store. It fails exactly where the store is missing, or needs
    /// a guide and has no logical identifier.
    fn guides_for_store(&self, id: i64) -> (r: Result<Vec<Guide>, StoreError>)
        requires
            id > i64::MIN,
        ensures
            match r {
                Ok(guides) => {
                    &&& store::is_element(self@, id as int)
                    &&& is_named(self@, id as int)
                    &&& guide_views(guides@) == guides_for(self@, id as int)
                },
                Err(_) => !store::is_element(self@, id as int) || !is_named(self@, id as int),
            },
    {
        let sensitivity = self.get_tag(id, "DataSensitivity")?;
        let criticality = self.get_tag(id, "DataCriticality")?;
        let evident = if critical(&criticality) {
            self.has_evidence(id, "DataResiliance")?
        } else {
            false
        };
        let foci = needed_guides(
            sensitivity.is_some(),
            criticality.is_some(),
            &criticality,
            evident,
        );
        assert(foci@ == foci_for(self@, id as int));
        if foci.len() == 0 {
            let none: Vec<Guide> = Vec::new();
            assert(guide_views(none@) =~= guides_for(self@, id as int));
            return Ok(none);
        }
        let logical_id = self.get_logical_id(id)?.unwrap();
        let guides = guides_about(id, logical_id.as_str(), &foci);
        assert(guide_views(guides@) =~= guides_for(self@, id as int));
        Ok(guides)
    }
}

/// The view of some identifiers.
pub open spec fn id_views(ids: Seq<i64>) -> Seq<int> {
    Seq::new(ids.len(), |i: int| ids[i] as int)
}

} // verus!
