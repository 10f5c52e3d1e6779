//! What holds of systems as a whole.

use vstd::prelude::*;

use crate::guidance::{self, FocusTaxonomy};
use crate::model::view::ModelView;
use crate::model::EntityId;
use crate::system::store::{self, Element, Properties};
use crate::system::{self, NodeGuide};

verus! {

/// A new node can be read back: it is a node, it has its kind and its provider,
/// and every other property as it was given.
pub proof fn lemma_node_reads_back(
    contents: Seq<Element>,
    kind: Seq<char>,
    provider: Seq<char>,
    attrs: Properties,
    key: Seq<char>,
)
    ensures
        ({
            let id = contents.len() + 1;
            let values = system::node_values(kind, provider, attrs);
            let after = contents.push((0, 0, values));
            &&& store::is_node(after, id as int)
            &&& after[store::position(id as int)].2 == values
            &&& store::property(values, "kind"@) == Some(kind)
            &&& store::property(values, "provider"@) == Some(provider)
            &&& key != "kind"@ && key != "provider"@ ==> store::property(values, key)
                == store::property(attrs, key)
        }),
{
    let values = system::node_values(kind, provider, attrs);
    assert("kind"@ != "provider"@) by {
        reveal_strlit("kind");
        reveal_strlit("provider");
        assert("kind"@.len() == 4);
        assert("provider"@.len() == 8);
    }
    assert(values.skip(1)[0] == ("provider"@, provider));
    assert(values.skip(1).skip(1) =~= attrs);
    reveal_with_fuel(store::property, 3);
}

/// What is added later leaves the elements of a system as they are.
pub proof fn lemma_elements_stay(contents: Seq<Element>, more: Element, id: int)
    requires
        store::is_element(contents, id),
    ensures
        store::is_element(contents.push(more), id),
        contents.push(more)[store::position(id)] == contents[store::position(id)],
{
}

/// A new edge is an edge between its two nodes.
pub proof fn lemma_edge_reads_back(contents: Seq<Element>, from: int, to: int, values: Properties)
    requires
        store::is_node(contents, from),
        store::is_node(contents, to),
    ensures
        ({
            let id = -(contents.len() + 1);
            let after = contents.push((from, to, values));
            &&& store::is_element(after, id)
            &&& !store::is_node(after, id)
            &&& after[store::position(id)] == (from, to, values)
        }),
{
}

/// What a search finds has the wanted properties and was met.
pub proof fn lemma_found_matches(contents: Seq<Element>, ids: Seq<int>, wanted: Properties, i: int)
    requires
        0 <= i < store::matching(contents, ids, wanted).len(),
    ensures
        ({
            let id = store::matching(contents, ids, wanted)[i];
            &&& ids.contains(id)
            &&& store::matches(contents[store::position(id)].2, wanted)
        }),
    decreases ids.len(),
{
    if ids.len() > 0 {
        let rest = ids.drop_last();
        let before = store::matching(contents, rest, wanted);
        if i < before.len() {
            lemma_found_matches(contents, rest, wanted, i);
            let id = before[i];
            let k = choose|k: int| 0 <= k < rest.len() && rest[k] == id;
            assert(ids[k] == id);
        } else {
            assert(ids[ids.len() - 1] == ids.last());
        }
    }
}

/// What was met and has the wanted properties is found.
pub proof fn lemma_matches_are_found(contents: Seq<Element>, ids: Seq<int>, wanted: Properties, id: int)
    requires
        ids.contains(id),
        store::matches(contents[store::position(id)].2, wanted),
    ensures
        store::matching(contents, ids, wanted).contains(id),
    decreases ids.len(),
{
    let rest = ids.drop_last();
    let before = store::matching(contents, rest, wanted);
    let all = store::matching(contents, ids, wanted);
    if ids.last() == id {
        assert(all[all.len() - 1] == id);
    } else {
        let k = choose|k: int| 0 <= k < ids.len() && ids[k] == id;
        assert(rest[k] == id);
        lemma_matches_are_found(contents, rest, wanted, id);
        let j = choose|j: int| 0 <= j < before.len() && before[j] == id;
        assert(all[j] == id);
    }
}

/// Where the elements met from a node are those that the edges lead to, a search
/// finds exactly those of them that have the wanted properties, each once.
pub proof fn lemma_search_finds_all(contents: Seq<Element>, from: int, wanted: Properties)
    requires
        store::lists_reachable(contents, from, store::depth_first(contents, from)),
    ensures
        system::finds_all(contents, from, wanted),
{
    let ids = store::depth_first(contents, from);
    let found = system::met(contents, from, wanted);
    lemma_matching_distinct(contents, ids, wanted);
    assert forall|id: int| #[trigger] found.contains(id) <==> system::has_below(
        contents,
        from,
        id,
        wanted,
    ) by {
        if found.contains(id) {
            let i = choose|i: int| 0 <= i < found.len() && found[i] == id;
            lemma_found_matches(contents, ids, wanted, i);
        }
        if system::has_below(contents, from, id, wanted) {
            assert(ids.contains(id));
            lemma_matches_are_found(contents, ids, wanted, id);
        }
    }
}

/// What is met once is found once.
proof fn lemma_matching_distinct(contents: Seq<Element>, ids: Seq<int>, wanted: Properties)
    requires
        ids.no_duplicates(),
    ensures
        store::matching(contents, ids, wanted).no_duplicates(),
    decreases ids.len(),
{
    if ids.len() > 0 {
        let rest = ids.drop_last();
        lemma_matching_distinct(contents, rest, wanted);
        let before = store::matching(contents, rest, wanted);
        assert forall|i: int| 0 <= i < before.len() implies #[trigger] before[i] != ids.last() by {
            lemma_found_matches(contents, rest, wanted, i);
            let k = choose|k: int| 0 <= k < rest.len() && rest[k] == before[i];
            assert(ids[k] == before[i]);
        }
    }
}

/// What a node was linked to by an edge is below it, and so is what is below that.
pub proof fn lemma_edge_leads_on(contents: Seq<Element>, edge: int, to: int)
    requires
        edge < 0,
        store::is_element(contents, edge),
        store::is_node(contents, contents[store::position(edge)].0),
        store::leads_to(contents, contents[store::position(edge)].1, to),
    ensures
        store::leads_to(contents, contents[store::position(edge)].0, to),
{
    let from = contents[store::position(edge)].0;
    let next = contents[store::position(edge)].1;
    let way = choose|way: Seq<int>| #[trigger]
        store::is_way_between(contents, next, to, way);
    let longer = seq![from, edge] + way;
    assert forall|i: int| 0 <= i < longer.len() implies store::is_element(
        contents,
        #[trigger] longer[i],
    ) by {
        if i >= 2 {
            assert(longer[i] == way[i - 2]);
        }
    }
    assert forall|i: int, j: int|
        #![trigger longer[i], longer[j]]
        0 <= i && j == i + 1 && j < longer.len() implies store::is_next(
        contents,
        longer[i],
        longer[j],
    ) by {
        if i >= 2 {
            assert(longer[i] == way[i - 2]);
            assert(longer[j] == way[j - 2]);
        } else if i == 1 {
            assert(longer[j] == way[0]);
        }
    }
    assert(store::is_way_between(contents, from, to, longer));
}

/// What a node was just linked to is below it.
pub proof fn lemma_linked_is_below(
    contents: Seq<Element>,
    from: int,
    to: int,
    values: Properties,
)
    requires
        store::is_node(contents, from),
        store::is_node(contents, to),
    ensures
        store::leads_to(contents.push((from, to, values)), from, to),
{
    let after = contents.push((from, to, values));
    lemma_leads_to_itself(after, to);
    lemma_edge_leads_on(after, -(contents.len() as int + 1), to);
}

/// An element leads to itself.
pub proof fn lemma_leads_to_itself(contents: Seq<Element>, id: int)
    requires
        store::is_element(contents, id),
    ensures
        store::leads_to(contents, id, id),
{
    assert(store::is_way_between(contents, id, id, seq![id]));
}

/// What the edges lead to stays so when more is added.
pub proof fn lemma_ways_stay(contents: Seq<Element>, more: Element, from: int, to: int)
    requires
        store::leads_to(contents, from, to),
    ensures
        store::leads_to(contents.push(more), from, to),
{
    let after = contents.push(more);
    let way = choose|way: Seq<int>| #[trigger] store::is_way_between(contents, from, to, way);
    assert forall|i: int, j: int|
        #![trigger way[i], way[j]]
        0 <= i && j == i + 1 && j < way.len() implies store::is_next(after, way[i], way[j]) by {
        assert(store::is_element(contents, way[i]));
        assert(store::is_element(contents, way[j]));
        assert(store::is_next(contents, way[i], way[j]));
    }
    assert(store::is_way_between(after, from, to, way));
}

/// A store with both tags whose data is not critical, or is shown to be backed
/// up, needs no guidance; any other store does.
pub proof fn lemma_store_guidance_is_needed(contents: Seq<Element>, node: int)
    ensures
        system::guides_for(contents, node).len() == 0 <==> ({
            let criticality = system::tag_in(contents, node, "DataCriticality"@);
            &&& system::tag_in(contents, node, "DataSensitivity"@) is Some
            &&& criticality is Some
            &&& guidance::is_critical(criticality) ==> system::is_evident(
                contents,
                node,
                "DataResiliance"@,
            )
        }),
{
}

/// Every guide is about one of the stores.
pub proof fn lemma_node_guides_are_about_stores(contents: Seq<Element>, nodes: Seq<int>, i: int)
    requires
        0 <= i < system::guides_for_all(contents, nodes).len(),
    ensures
        nodes.contains(system::guides_for_all(contents, nodes)[i].node),
    decreases nodes.len(),
{
    if nodes.len() > 0 {
        let rest = nodes.drop_last();
        let before = system::guides_for_all(contents, rest);
        if i < before.len() {
            lemma_node_guides_are_about_stores(contents, rest, i);
            let k = choose|k: int| 0 <= k < rest.len() && rest[k] == before[i].node;
            assert(nodes[k] == before[i].node);
        } else {
            assert(system::guides_for_all(contents, nodes)[i].node == nodes[nodes.len() - 1]);
        }
    }
}

// ---------------------------------------------------------------------------
// What is read from a system
// ---------------------------------------------------------------------------

/// A property is the first one with its key; there is none exactly where no
/// property has the key.
pub proof fn lemma_property_is_first(values: Properties, key: Seq<char>, i: int)
    ensures
        0 <= i < values.len() && values[i].0 == key && (forall|j: int|
            0 <= j < i ==> (#[trigger] values[j]).0 != key) ==> store::property(values, key)
            == Some(values[i].1),
        store::property(values, key) is None <==> forall|j: int|
            0 <= j < values.len() ==> (#[trigger] values[j]).0 != key,
    decreases values.len(),
{
    if values.len() > 0 {
        let rest = values.skip(1);
        lemma_property_is_first(rest, key, i - 1);
        assert(forall|j: int| 0 <= j < rest.len() ==> #[trigger] rest[j] == values[j + 1]);
        if store::property(values, key) is None {
            assert forall|j: int| 0 <= j < values.len() implies (#[trigger] values[j]).0 != key by {
                if j > 0 {
                    assert(rest[j - 1].0 != key);
                }
            }
        } else if values[0].0 != key {
            let j = choose|j: int| 0 <= j < rest.len() && (#[trigger] rest[j]).0 == key;
            assert(values[j + 1].0 == key);
        }
    }
}

/// What is found among elements in two parts is what is found in the first and then
/// what is found in the second.
pub proof fn lemma_matching_join(
    contents: Seq<Element>,
    a: Seq<int>,
    b: Seq<int>,
    wanted: Properties,
)
    ensures
        store::matching(contents, a + b, wanted) == store::matching(contents, a, wanted)
            + store::matching(contents, b, wanted),
    decreases b.len(),
{
    if b.len() == 0 {
        assert(a + b =~= a);
        assert(store::matching(contents, a, wanted) + store::matching(contents, b, wanted)
            =~= store::matching(contents, a, wanted));
    } else {
        lemma_matching_join(contents, a, b.drop_last(), wanted);
        assert((a + b).drop_last() =~= a + b.drop_last());
        assert((a + b).last() == b.last());
        assert(store::matching(contents, a + b, wanted) =~= store::matching(contents, a, wanted)
            + store::matching(contents, b, wanted));
    }
}

/// Whether an element has a value under a key.
pub open spec fn says(contents: Seq<Element>, id: int, key: Seq<char>, value: Seq<char>) -> bool {
    store::property(contents[store::position(id)].2, key) == Some(value)
}

/// Whether the edges lead to an element that is a list of tags.
pub open spec fn is_list_below(contents: Seq<Element>, node: int, list: int) -> bool {
    store::leads_to(contents, node, list) && says(contents, list, "name"@, "tags"@)
}

/// Whether the edges lead to an element that is a tag with a key.
pub open spec fn is_key_below(contents: Seq<Element>, list: int, key: Seq<char>, tag: int) -> bool {
    store::leads_to(contents, list, tag) && says(contents, tag, "key"@, key)
}

/// Whether a search from any node meets all that the edges lead to.
pub open spec fn is_searched(contents: Seq<Element>) -> bool {
    forall|x: int|
        store::is_node(contents, x) ==> store::lists_reachable(
            contents,
            x,
            #[trigger] store::depth_first(contents, x),
        )
}

proof fn lemma_met(contents: Seq<Element>, from: int, wanted: Properties, id: int)
    requires
        is_searched(contents),
        store::is_node(contents, from),
    ensures
        system::met(contents, from, wanted).contains(id) <==> store::leads_to(contents, from, id)
            && store::matches(contents[store::position(id)].2, wanted),
{
    assert(store::lists_reachable(contents, from, store::depth_first(contents, from)));
    lemma_search_finds_all(contents, from, wanted);
    assert(system::met(contents, from, wanted).contains(id) <==> system::has_below(
        contents,
        from,
        id,
        wanted,
    ));
}

/// The value of a tag of a node is what the only tag with the key below the only
/// list of tags says; there is none without a list, or without such a tag below the
/// only list.
pub proof fn lemma_tag_in(contents: Seq<Element>, node: int, key: Seq<char>, list: int, tag: int)
    requires
        is_searched(contents),
        store::is_node(contents, node),
    ensures
        (forall|l: int| !#[trigger] is_list_below(contents, node, l)) ==> system::tag_in(
            contents,
            node,
            key,
        ) is None,
        store::is_node(contents, list) && is_list_below(contents, node, list) && (forall|l: int|
            #[trigger] is_list_below(contents, node, l) ==> l == list) ==> {
            &&& (forall|t: int| !#[trigger] is_key_below(contents, list, key, t))
                ==> system::tag_in(contents, node, key) is None
            &&& is_key_below(contents, list, key, tag) && (forall|t: int| #[trigger]
                is_key_below(contents, list, key, t) ==> t == tag) ==> system::tag_in(
                contents,
                node,
                key,
            ) == store::property(contents[store::position(tag)].2, "value"@)
        },
{
    let wanted = system::list_values();
    let lists = system::met(contents, node, wanted);
    assert(wanted[0] == ("name"@, "tags"@));
    assert forall|l: int| lists.contains(l) <==> #[trigger] is_list_below(contents, node, l) by {
        lemma_met(contents, node, wanted, l);
        assert(store::matches(contents[store::position(l)].2, wanted) <==> says(
            contents,
            l,
            "name"@,
            "tags"@,
        ));
    }
    if lists.len() > 0 {
        assert(lists.contains(lists[0]));
        assert(is_list_below(contents, node, lists[0]));
    }
    if store::is_node(contents, list) && is_list_below(contents, node, list) && (forall|l: int|
        #[trigger] is_list_below(contents, node, l) ==> l == list) {
        assert(lists.contains(list));
        assert(lists[0] == list);
        let sought = system::key_values(key);
        let tags = system::met(contents, list, sought);
        assert(sought[0] == ("key"@, key));
        assert forall|t: int| tags.contains(t) <==> #[trigger] is_key_below(
            contents,
            list,
            key,
            t,
        ) by {
            lemma_met(contents, list, sought, t);
            assert(store::matches(contents[store::position(t)].2, sought) <==> says(
                contents,
                t,
                "key"@,
                key,
            ));
        }
        if tags.len() > 0 {
            assert(tags.contains(tags[0]));
            assert(is_key_below(contents, list, key, tags[0]));
        }
        if is_key_below(contents, list, key, tag) {
            assert(tags.contains(tag));
        }
    }
}

/// There is evidence below a node exactly where the edges lead to an element that is
/// evidence, provided by `wa2`, and has the name as its value.
pub proof fn lemma_evident(contents: Seq<Element>, node: int, name: Seq<char>)
    requires
        is_searched(contents),
        store::is_node(contents, node),
    ensures
        system::is_evident(contents, node, name) <==> exists|id: int|
            {
                &&& #[trigger] store::leads_to(contents, node, id)
                &&& says(contents, id, "provider"@, "wa2"@)
                &&& says(contents, id, "kind"@, "Evidence"@)
                &&& says(contents, id, "value"@, name)
            },
{
    let wanted = system::evidence_values(name);
    let found = system::met(contents, node, wanted);
    assert(wanted[0] == ("provider"@, "wa2"@) && wanted[1] == ("kind"@, "Evidence"@) && wanted[2]
        == ("value"@, name));
    if found.len() > 0 {
        assert(found.contains(found[0]));
        lemma_met(contents, node, wanted, found[0]);
        assert(store::leads_to(contents, node, found[0]));
    }
    assert forall|id: int|
        {
            &&& #[trigger] store::leads_to(contents, node, id)
            &&& says(contents, id, "provider"@, "wa2"@)
            &&& says(contents, id, "kind"@, "Evidence"@)
            &&& says(contents, id, "value"@, name)
        } implies found.len() > 0 by {
        lemma_met(contents, node, wanted, id);
        assert(found.contains(id));
    }
}

/// Whether the edges lead from the first node to a resource that stores data.
pub open spec fn is_store_of(contents: Seq<Element>, id: int) -> bool {
    &&& store::leads_to(contents, 1, id)
    &&& says(contents, id, "kind"@, "Resource"@)
    &&& says(contents, id, "wa2_kind"@, "Store"@)
}

/// Whether a store needs a guide on a subject: it lacks the tag; or its data is
/// critical and nothing shows that it is backed up.
pub open spec fn asks(contents: Seq<Element>, node: int, focus: FocusTaxonomy) -> bool {
    let criticality = system::tag_in(contents, node, "DataCriticality"@);
    match focus {
        FocusTaxonomy::DataSensitivity => system::tag_in(
            contents,
            node,
            "DataSensitivity"@,
        ) is None,
        FocusTaxonomy::DataCriticality => criticality is None,
        FocusTaxonomy::DataResiliance => (criticality == Some("MissionCritical"@) || criticality
            == Some("BusinessCritical"@)) && !system::is_evident(
            contents,
            node,
            "DataResiliance"@,
        ),
    }
}

/// Whether a list has a guide for a node on a subject.
pub open spec fn has_node_guide(list: Seq<NodeGuide>, node: int, focus: FocusTaxonomy) -> bool {
    exists|i: int| 0 <= i < list.len() && (#[trigger] list[i]).node == node && list[i].focus == focus
}

/// The guides for nodes in two parts are those for the first part and then those
/// for the second.
pub proof fn lemma_node_guides_join(contents: Seq<Element>, a: Seq<int>, b: Seq<int>)
    ensures
        system::guides_for_all(contents, a + b) == system::guides_for_all(contents, a)
            + system::guides_for_all(contents, b),
        forall|node: int|
            system::guides_for_all(contents, #[trigger] seq![node]) == system::guides_for(
                contents,
                node,
            ),
    decreases b.len(),
{
    assert forall|node: int|
        system::guides_for_all(contents, #[trigger] seq![node]) == system::guides_for(
            contents,
            node,
        ) by {
        let one = seq![node];
        assert(one.drop_last() =~= seq![]);
        assert(system::guides_for_all(contents, one.drop_last()) =~= seq![]);
        assert(system::guides_for_all(contents, one) =~= system::guides_for(contents, node));
    }
    let all = system::guides_for_all(contents, a);
    if b.len() == 0 {
        assert(a + b =~= a);
        assert(all + system::guides_for_all(contents, b) =~= all);
    } else {
        lemma_node_guides_join(contents, a, b.drop_last());
        assert((a + b).drop_last() =~= a + b.drop_last());
        assert((a + b).last() == b.last());
        assert(system::guides_for_all(contents, a + b) =~= all + system::guides_for_all(
            contents,
            b,
        ));
    }
}

/// The guides for a node are on the subjects that it asks for, in the order of the
/// subjects; they name the node by its logical identifier, in the words that guides
/// on a subject have everywhere.
pub proof fn lemma_guides_for_node(contents: Seq<Element>, node: int, m: ModelView, id: EntityId)
    ensures
        ({
            let list = system::guides_for(contents, node);
            &&& forall|focus: FocusTaxonomy| #[trigger]
                has_node_guide(list, node, focus) <==> asks(contents, node, focus)
            &&& forall|i: int, j: int|
                0 <= i < j < list.len() ==> guidance::rank((#[trigger] list[i]).focus)
                    < guidance::rank((#[trigger] list[j]).focus)
            &&& forall|i: int|
                0 <= i < list.len() ==> {
                    let guide = #[trigger] list[i];
                    let same = guidance::guide_on(m, id, guide.focus);
                    &&& guide.node == node
                    &&& store::property(
                        contents[store::position(node)].2,
                        "logical_id"@,
                    ) is Some ==> says(contents, node, "logical_id"@, guide.logical_id)
                    &&& guide.level == same.level && guide.tldr == same.tldr && guide.message
                        == same.message && guide.why == same.why
                }
        }),
{
    let list = system::guides_for(contents, node);
    let foci = system::foci_for(contents, node);
    assert(forall|i: int| 0 <= i < list.len() ==> (#[trigger] list[i]).focus == foci[i]);
    assert forall|focus: FocusTaxonomy| #[trigger] has_node_guide(list, node, focus) <==> asks(
        contents,
        node,
        focus,
    ) by {
        let has_sensitivity = system::tag_in(contents, node, "DataSensitivity"@) is Some;
        let has_criticality = system::tag_in(contents, node, "DataCriticality"@) is Some;
        if asks(contents, node, focus) {
            let at: int = match focus {
                FocusTaxonomy::DataSensitivity => 0,
                FocusTaxonomy::DataCriticality => if has_sensitivity {
                    0
                } else {
                    1
                },
                FocusTaxonomy::DataResiliance => foci.len() - 1,
            };
            assert(foci[at] == focus);
            assert(list[at].focus == focus && list[at].node == node);
        }
        if has_node_guide(list, node, focus) {
            let i = choose|i: int|
                0 <= i < list.len() && (#[trigger] list[i]).node == node && list[i].focus == focus;
            assert(foci[i] == focus);
        }
    }
}

/// For every store that the edges lead to from the first node, and every subject
/// that it asks for, and for nothing else, there is a guide.
pub proof fn lemma_every_node_is_guided(contents: Seq<Element>)
    requires
        is_searched(contents),
        store::is_node(contents, 1),
    ensures
        forall|node: int, focus: FocusTaxonomy| #[trigger]
            has_node_guide(system::guides_in(contents), node, focus) <==> is_store_of(
                contents,
                node,
            ) && asks(contents, node, focus),
{
    let stores = system::stores_of(contents);
    let wanted = seq![("kind"@, "Resource"@), ("wa2_kind"@, "Store"@)];
    assert(wanted[0] == ("kind"@, "Resource"@) && wanted[1] == ("wa2_kind"@, "Store"@));
    assert forall|node: int| #[trigger] stores.contains(node) <==> is_store_of(contents, node) by {
        lemma_met(contents, 1, wanted, node);
    }
    assert forall|node: int, focus: FocusTaxonomy| #[trigger]
        has_node_guide(system::guides_in(contents), node, focus) <==> is_store_of(contents, node)
            && asks(contents, node, focus) by {
        lemma_guided_among(contents, stores, node, focus);
    }
}

proof fn lemma_guided_among(
    contents: Seq<Element>,
    nodes: Seq<int>,
    node: int,
    focus: FocusTaxonomy,
)
    ensures
        has_node_guide(system::guides_for_all(contents, nodes), node, focus) <==> nodes.contains(
            node,
        ) && asks(contents, node, focus),
    decreases nodes.len(),
{
    let all = system::guides_for_all(contents, nodes);
    if nodes.len() > 0 {
        let rest = nodes.drop_last();
        let before = system::guides_for_all(contents, rest);
        let own = system::guides_for(contents, nodes.last());
        lemma_guided_among(contents, rest, node, focus);
        lemma_guides_for_node(contents, nodes.last(), arbitrary(), arbitrary());
        assert(has_node_guide(own, nodes.last(), focus) <==> asks(contents, nodes.last(), focus));
        assert(all == before + own);
        assert(nodes.contains(node) <==> rest.contains(node) || node == nodes.last()) by {
            assert(nodes[nodes.len() - 1] == nodes.last());
            if nodes.contains(node) {
                let k = choose|k: int| 0 <= k < nodes.len() && nodes[k] == node;
                if k < rest.len() {
                    assert(rest[k] == node);
                }
            }
            if rest.contains(node) {
                let k = choose|k: int| 0 <= k < rest.len() && rest[k] == node;
                assert(nodes[k] == node);
            }
        }
        if has_node_guide(all, node, focus) {
            let i = choose|i: int|
                0 <= i < all.len() && (#[trigger] all[i]).node == node && all[i].focus == focus;
            if i < before.len() {
                assert(before[i] == all[i]);
            } else {
                assert(own[i - before.len()] == all[i]);
                assert(has_node_guide(own, node, focus));
            }
        }
        if has_node_guide(before, node, focus) {
            let i = choose|i: int|
                0 <= i < before.len() && (#[trigger] before[i]).node == node && before[i].focus
                    == focus;
            assert(all[i] == before[i]);
        }
        if node == nodes.last() && has_node_guide(own, node, focus) {
            let i = choose|i: int|
                0 <= i < own.len() && (#[trigger] own[i]).node == node && own[i].focus == focus;
            assert(all[before.len() + i] == own[i]);
        }
    }
}

/// Of several lists of tags, and of several tags with a key, the first one that a
/// search meets counts.
pub proof fn lemma_first_met_counts(
    contents: Seq<Element>,
    node: int,
    key: Seq<char>,
    i: int,
    j: int,
)
    requires
        0 <= i < store::depth_first(contents, node).len(),
        says(contents, store::depth_first(contents, node)[i], "name"@, "tags"@),
        forall|k: int|
            0 <= k < i ==> !says(
                contents,
                #[trigger] store::depth_first(contents, node)[k],
                "name"@,
                "tags"@,
            ),
        ({
            let below = store::depth_first(contents, store::depth_first(contents, node)[i]);
            &&& 0 <= j < below.len()
            &&& says(contents, below[j], "key"@, key)
            &&& forall|k: int|
                0 <= k < j ==> !says(contents, #[trigger] below[k], "key"@, key)
        }),
    ensures
        ({
            let below = store::depth_first(contents, store::depth_first(contents, node)[i]);
            system::tag_in(contents, node, key) == store::property(
                contents[store::position(below[j])].2,
                "value"@,
            )
        }),
{
    let ids = store::depth_first(contents, node);
    let below = store::depth_first(contents, ids[i]);
    let wanted = system::list_values();
    let sought = system::key_values(key);
    assert(wanted[0] == ("name"@, "tags"@));
    assert(sought[0] == ("key"@, key));
    assert forall|x: int| store::matches(contents[store::position(x)].2, wanted)
        <==> #[trigger] says(contents, x, "name"@, "tags"@) by {}
    assert forall|x: int| store::matches(contents[store::position(x)].2, sought)
        <==> #[trigger] says(contents, x, "key"@, key) by {}
    assert forall|k: int| 0 <= k < i implies !store::matches(
        contents[store::position(#[trigger] ids[k])].2,
        wanted,
    ) by {
        assert(!says(contents, ids[k], "name"@, "tags"@));
    }
    assert forall|k: int| 0 <= k < j implies !store::matches(
        contents[store::position(#[trigger] below[k])].2,
        sought,
    ) by {
        assert(!says(contents, below[k], "key"@, key));
    }
    lemma_first_matching(contents, ids, wanted, i);
    lemma_first_matching(contents, below, sought, j);
}

proof fn lemma_first_matching(contents: Seq<Element>, ids: Seq<int>, wanted: Properties, i: int)
    requires
        0 <= i < ids.len(),
        store::matches(contents[store::position(ids[i])].2, wanted),
        forall|k: int|
            0 <= k < i ==> !store::matches(
                contents[store::position(#[trigger] ids[k])].2,
                wanted,
            ),
    ensures
        store::matching(contents, ids, wanted).len() > 0,
        store::matching(contents, ids, wanted)[0] == ids[i],
    decreases ids.len(),
{
    let rest = ids.drop_last();
    if i < rest.len() {
        assert(rest[i] == ids[i]);
        lemma_first_matching(contents, rest, wanted, i);
    } else {
        lemma_none_matching(contents, rest, wanted);
        assert(ids.last() == ids[i]);
    }
}

proof fn lemma_none_matching(contents: Seq<Element>, ids: Seq<int>, wanted: Properties)
    requires
        forall|k: int|
            0 <= k < ids.len() ==> !store::matches(
                contents[store::position(#[trigger] ids[k])].2,
                wanted,
            ),
    ensures
        store::matching(contents, ids, wanted).len() == 0,
    decreases ids.len(),
{
    if ids.len() > 0 {
        lemma_none_matching(contents, ids.drop_last(), wanted);
        assert(ids.last() == ids[ids.len() - 1]);
    }
}

} // verus!
