//! A system as text.

use vstd::prelude::*;

use crate::system::store::{self, search_breadth_first, Element, Found, Properties};
use crate::system::{self, answer, find_property, StoreError, System};
use crate::text;

verus! {

// ---------------------------------------------------------------------------
// What the text shows
// ---------------------------------------------------------------------------

/// The value of a property, or an empty text.
pub open spec fn value_or_empty(values: Properties, key: Seq<char>) -> Seq<char> {
    match store::property(values, key) {
        Some(s) => s,
        None => ""@,
    }
}

/// The name of a node: its logical identifier, else its name.
pub open spec fn shown_name(values: Properties) -> Seq<char> {
    match store::property(values, "logical_id"@) {
        Some(s) => s,
        None => value_or_empty(values, "name"@),
    }
}

/// What a node is: its abstract kind, else the tag that it is, else nothing.
pub open spec fn shown_kind(values: Properties) -> Seq<char> {
    let key = value_or_empty(values, "key"@);
    match store::property(values, "wa2_kind"@) {
        Some(s) => s,
        None => if key.len() == 0 {
            "(none)"@
        } else {
            "#"@ + key + "="@ + value_or_empty(values, "value"@)
        },
    }
}

/// The line of a node.
pub open spec fn node_line(id: int, values: Properties) -> Seq<char> {
    shown_name(values) + " = "@ + value_or_empty(values, "provider"@) + ":"@ + value_or_empty(
        values,
        "kind"@,
    ) + "(#"@ + text::signed_decimal(id) + "): "@ + value_or_empty(values, "type"@)
        + ", WA2 -> "@ + shown_kind(values)
}

/// An element that was met: its identifier, for an edge where it comes from and
/// goes to, and its properties.
pub struct Met {
    pub id: int,
    pub from: int,
    pub to: int,
    pub values: Properties,
}

/// An element that was met; a node comes from nowhere and goes nowhere.
pub open spec fn met_as(id: int, from: int, to: int, values: Properties) -> Met {
    if id < 0 {
        Met { id, from, to, values }
    } else {
        Met { id, from: 0, to: 0, values }
    }
}

/// The elements with some identifiers.
pub open spec fn met_in(contents: Seq<Element>, ids: Seq<int>) -> Seq<Met> {
    Seq::new(
        ids.len(),
        |i: int|
            {
                let e = contents[store::position(ids[i])];
                met_as(ids[i], e.0, e.1, e.2)
            },
    )
}

/// The view of elements that were found.
pub open spec fn met_views(found: Seq<Found>) -> Seq<Met> {
    Seq::new(
        found.len(),
        |i: int|
            met_as(
                found[i].id as int,
                found[i].from as int,
                found[i].to as int,
                store::property_views(found[i].values@),
            ),
    )
}

/// The line of a node among elements that were met.
pub open spec fn line_in(elements: Seq<Met>, node: int) -> Option<Seq<char>>
    decreases elements.len(),
{
    if elements.len() == 0 || node <= 0 {
        None
    } else if elements.last().id == node {
        Some(node_line(node, elements.last().values))
    } else {
        line_in(elements.drop_last(), node)
    }
}

/// Where the edges from a node go, in the order in which they were met.
pub open spec fn edges_from(elements: Seq<Met>, node: int) -> Seq<int>
    decreases elements.len(),
{
    if elements.len() == 0 {
        seq![]
    } else {
        let rest = edges_from(elements.drop_last(), node);
        let e = elements.last();
        if e.id <= 0 && e.from == node {
            rest.push(e.to)
        } else {
            rest
        }
    }
}

/// A number in at least two columns.
pub open spec fn padded(n: nat) -> Seq<char> {
    if n < 10 {
        " "@ + text::decimal(n)
    } else {
        text::decimal(n)
    }
}

/// How an edge is announced.
pub open spec fn arrow(from: nat, to: nat) -> Seq<char> {
    padded(from) + "->"@ + padded(to)
}

/// The number that stands for an element.
pub open spec fn number(id: int) -> nat {
    if id < 0 {
        (-id) as nat
    } else {
        id as nat
    }
}

/// The text of a node and of what its edges lead to, no deeper than `fuel`.
pub open spec fn node_text(
    elements: Seq<Met>,
    node: int,
    depth: nat,
    mark: Seq<char>,
    fuel: nat,
) -> Seq<char>
    decreases fuel, 0nat,
{
    if fuel == 0 {
        seq![]
    } else {
        match line_in(elements, node) {
            Some(line) => text::repeated(" "@, depth) + mark + line + "\n"@ + edges_text(
                elements,
                node,
                edges_from(elements, node),
                depth,
                (fuel - 1) as nat,
            ),
            None => seq![],
        }
    }
}

/// The text of the first edges of a node.
pub open spec fn edges_text(
    elements: Seq<Met>,
    node: int,
    edges: Seq<int>,
    depth: nat,
    fuel: nat,
) -> Seq<char>
    decreases fuel, edges.len() + 1,
{
    if edges.len() == 0 {
        seq![]
    } else {
        edges_text(elements, node, edges.drop_last(), depth, fuel) + arrow(
            number(node),
            number(edges.last()),
        ) + node_text(elements, edges.last(), depth + 1, "+"@, fuel)
    }
}

/// The text of elements that were met: the first node, and what its edges lead
/// to. No path is followed further than there are elements.
pub open spec fn text_of(elements: Seq<Met>) -> Seq<char> {
    arrow(0, 1) + node_text(elements, 1, 0, "\\"@, elements.len())
}

/// The text of a system.
pub open spec fn system_text(contents: Seq<Element>) -> Seq<char> {
    text_of(met_in(contents, store::breadth_first(contents, 1)))
}

// ---------------------------------------------------------------------------
// Writing
// ---------------------------------------------------------------------------

/// Shows a system as text.
pub struct PrettySystem<'a> {
    pub system: &'a System,
}

/// The value of a property of an element.
fn get_value(elem: &Found, key: &str) -> (r: Option<String>)
    ensures
        r.deep_view() == store::property(store::property_views(elem.values@), key@),
{
    find_property(&elem.values, key)
}

/// The value of a property of an element, or an empty text.
fn get_or_empty(elem: &Found, key: &str) -> (r: String)
    ensures
        r@ == value_or_empty(store::property_views(elem.values@), key@),
{
    match get_value(elem, key) {
        Some(s) => s,
        None => "".to_owned(),
    }
}

/// The line of a node.
fn line_of(elem: &Found) -> (r: String)
    ensures
        r@ == node_line(elem.id as int, store::property_views(elem.values@)),
{
    let name = match get_value(elem, "logical_id") {
        Some(s) => s,
        None => get_or_empty(elem, "name"),
    };
    let key = get_or_empty(elem, "key");
    let kind = match get_value(elem, "wa2_kind") {
        Some(s) => s,
        None => if text::is_empty(key.as_str()) {
            "(none)".to_owned()
        } else {
            text::cat4("#", key.as_str(), "=", get_or_empty(elem, "value").as_str())
        },
    };
    let head = text::cat5(
        name.as_str(),
        " = ",
        get_or_empty(elem, "provider").as_str(),
        ":",
        get_or_empty(elem, "kind").as_str(),
    );
    let middle = text::cat4(head.as_str(), "(#", text::signed_text(elem.id).as_str(), "): ");
    text::cat4(middle.as_str(), get_or_empty(elem, "type").as_str(), ", WA2 -> ", kind.as_str())
}

/// A number in at least two columns.
fn pad(n: u64) -> (r: String)
    ensures
        r@ == padded(n as nat),
{
    if n < 10 {
        text::cat2(" ", text::decimal_text(n).as_str())
    } else {
        text::decimal_text(n)
    }
}

/// The number that stands for an element.
fn index_of(id: i64) -> (r: u64)
    ensures
        r == number(id as int),
{
    if id < 0 {
        (-(id + 1)) as u64 + 1
    } else {
        id as u64
    }
}

/// How an edge is announced.
fn arrow_text(from: i64, to: i64) -> (r: String)
    ensures
        r@ == arrow(number(from as int), number(to as int)),
{
    text::cat3(pad(index_of(from)).as_str(), "->", pad(index_of(to)).as_str())
}

/// The line of a node among elements that were met.
fn find_line(elements: &Vec<Found>, node: i64) -> (r: Option<String>)
    ensures
        r.deep_view() == line_in(met_views(elements@), node as int),
{
    let ghost all = met_views(elements@);
    let mut line: Option<String> = None;
    for i in 0..elements.len()
        invariant
            all == met_views(elements@),
            line.deep_view() == line_in(all.take(i as int), node as int),
    {
        assert(all.take(i + 1).drop_last() =~= all.take(i as int));
        assert(all.take(i + 1).last() == all[i as int]);
        if node > 0 && elements[i].id == node {
            line = Some(line_of(&elements[i]));
        }
    }
    assert(all.take(all.len() as int) =~= all);
    line
}

/// Where the edges from a node go.
fn targets_from(elements: &Vec<Found>, node: i64) -> (r: Vec<i64>)
    requires
        node > 0,
    ensures
        system::id_views(r@) == edges_from(met_views(elements@), node as int),
{
    let ghost all = met_views(elements@);
    let mut targets: Vec<i64> = Vec::new();
    assert(system::id_views(targets@) =~= seq![]);
    for i in 0..elements.len()
        invariant
            node > 0,
            all == met_views(elements@),
            system::id_views(targets@) == edges_from(all.take(i as int), node as int),
    {
        assert(all.take(i + 1).drop_last() =~= all.take(i as int));
        assert(all.take(i + 1).last() == all[i as int]);
        if elements[i].id < 0 && elements[i].from == node {
            let ghost before = system::id_views(targets@);
            targets.push(elements[i].to);
            assert(system::id_views(targets@) =~= before.push(all[i as int].to));
        }
    }
    assert(all.take(all.len() as int) =~= all);
    targets
}

/// The text of a node and of what its edges lead to, no deeper than `fuel`.
fn print_graph(
    elements: &Vec<Found>,
    target: i64,
    depth: usize,
    prefix: &str,
    fuel: usize,
) -> (r: String)
    requires
        depth + fuel <= usize::MAX,
    ensures
        r@ == node_text(
            met_views(elements@),
            target as int,
            depth as nat,
            prefix@,
            fuel as nat,
        ),
    decreases fuel, 0nat,
{
    if fuel == 0 {
        return String::new();
    }
    match find_line(elements, target) {
        Some(line) => {
            let indent = text::repeat_text(" ", depth);
            let head = text::cat4(indent.as_str(), prefix, line.as_str(), "\n");
            let edges = targets_from(elements, target);
            let rest = print_edges(elements, target, &edges, depth, fuel - 1);
            text::cat2(head.as_str(), rest.as_str())
        },
        None => String::new(),
    }
}

/// The text of the edges of a node.
fn print_edges(
    elements: &Vec<Found>,
    node: i64,
    edges: &Vec<i64>,
    depth: usize,
    fuel: usize,
) -> (r: String)
    requires
        depth + fuel < usize::MAX,
    ensures
        r@ == edges_text(
            met_views(elements@),
            node as int,
            system::id_views(edges@),
            depth as nat,
            fuel as nat,
        ),
    decreases fuel, edges.len() + 1,
{
    let ghost all = system::id_views(edges@);
    let mut out = String::new();
    for i in 0..edges.len()
        invariant
            depth + fuel < usize::MAX,
            all == system::id_views(edges@),
            out@ == edges_text(
                met_views(elements@),
                node as int,
                all.take(i as int),
                depth as nat,
                fuel as nat,
            ),
    {
        assert(all.take(i + 1).drop_last() =~= all.take(i as int));
        assert(all.take(i + 1).last() == edges@[i as int]);
        let below = print_graph(elements, edges[i], depth + 1, "+", fuel);
        out = text::cat3(out.as_str(), arrow_text(node, edges[i]).as_str(), below.as_str());
    }
    assert(all.take(all.len() as int) =~= all);
    out
}

/// The text of elements that were met.
pub fn graph_text(elements: &Vec<Found>) -> (r: String)
    ensures
        r@ == text_of(met_views(elements@)),
{
    let body = print_graph(elements, 1, 0, "\\", elements.len());
    text::cat2(arrow_text(0, 1).as_str(), body.as_str())
}

impl<'a> PrettySystem<'a> {
    /// The system as text. It fails exactly where the system has no nodes.
    pub fn to_text(&self) -> (r: Result<String, StoreError>)
        ensures
            match r {
                Ok(text) => {
                    &&& store::is_node(self.system@, 1)
                    &&& text@ == system_text(self.system@)
                    &&& store::lists_reachable(
                        self.system@,
                        1,
                        store::breadth_first(self.system@, 1),
                    )
                },
                Err(_) => !store::is_node(self.system@, 1),
            },
    {
        let elements = answer(search_breadth_first(&self.system.db, 1))?;
        assert(met_views(elements@) =~= met_in(
            self.system@,
            store::breadth_first(self.system@, 1),
        ));
        Ok(graph_text(&elements))
    }
}

// ---------------------------------------------------------------------------
// Laws
// ---------------------------------------------------------------------------

/// Whether some edges lead from a node, one after the other, only to nodes that
/// were met.
pub open spec fn is_path(elements: Seq<Met>, path: Seq<int>) -> bool {
    &&& forall|i: int| 0 <= i < path.len() ==> line_in(elements, #[trigger] path[i]) is Some
    &&& forall|i: int, j: int|
        #![trigger path[i], path[j]]
        0 <= i && j == i + 1 && j < path.len() ==> edges_from(elements, path[i]).contains(path[j])
}

/// Whether no path leads back to where it began.
pub open spec fn is_acyclic(elements: Seq<Met>) -> bool {
    forall|path: Seq<int>|
        path.len() >= 2 && #[trigger] is_path(elements, path) ==> path[0] != path.last()
}

/// A node with a line is one of the elements.
proof fn lemma_line_is_met(elements: Seq<Met>, node: int)
    requires
        line_in(elements, node) is Some,
    ensures
        exists|i: int| 0 <= i < elements.len() && (#[trigger] elements[i]).id == node,
    decreases elements.len(),
{
    if elements.last().id == node {
        assert(elements[elements.len() - 1].id == node);
    } else {
        lemma_line_is_met(elements.drop_last(), node);
        let i = choose|i: int|
            0 <= i < elements.drop_last().len() && (#[trigger] elements.drop_last()[i]).id == node;
        assert(elements[i].id == node);
    }
}

/// A path without a cycle is no longer than there are elements.
proof fn lemma_path_is_short(elements: Seq<Met>, path: Seq<int>)
    requires
        is_acyclic(elements),
        is_path(elements, path),
    ensures
        path.len() <= elements.len(),
{
    assert forall|i: int, j: int| 0 <= i < j < path.len() implies path[i] != path[j] by {
        let part = path.subrange(i, j + 1);
        assert forall|k: int| 0 <= k < part.len() implies line_in(
            elements,
            #[trigger] part[k],
        ) is Some by {
            assert(part[k] == path[i + k]);
        }
        assert forall|k: int, l: int|
            #![trigger part[k], part[l]]
            0 <= k && l == k + 1 && l < part.len() implies edges_from(
            elements,
            part[k],
        ).contains(part[l]) by {
            assert(part[k] == path[i + k]);
            assert(part[l] == path[i + l]);
        }
        assert(is_path(elements, part));
        assert(part[0] == path[i]);
        assert(part.last() == path[j]);
    }
    assert(path.no_duplicates());
    let ids = Seq::new(elements.len(), |i: int| elements[i].id);
    assert forall|n: int| path.to_set().contains(n) implies ids.to_set().contains(n) by {
        let k = choose|k: int| 0 <= k < path.len() && path[k] == n;
        lemma_line_is_met(elements, path[k]);
        let i = choose|i: int|
            0 <= i < elements.len() && (#[trigger] elements[i]).id == path[k];
        assert(ids[i] == n);
    }
    path.unique_seq_to_set();
    ids.lemma_cardinality_of_set();
    vstd::set_lib::lemma_len_subset(path.to_set(), ids.to_set());
}

/// More depth changes nothing where no path from a node is that deep.
proof fn lemma_deeper(
    elements: Seq<Met>,
    way: Seq<int>,
    node: int,
    depth: nat,
    mark: Seq<char>,
    fuel: nat,
    more: nat,
)
    requires
        is_acyclic(elements),
        is_path(elements, way),
        way.len() > 0 ==> edges_from(elements, way.last()).contains(node),
        way.len() + fuel >= elements.len(),
        fuel <= more,
    ensures
        node_text(elements, node, depth, mark, fuel) == node_text(
            elements,
            node,
            depth,
            mark,
            more,
        ),
    decreases fuel, 0nat,
{
    if line_in(elements, node) is Some {
        let longer = way.push(node);
        assert(is_path(elements, longer));
        lemma_path_is_short(elements, longer);
        assert(fuel > 0);
        let edges = edges_from(elements, node);
        assert forall|i: int| 0 <= i < edges.len() implies edges.contains(#[trigger] edges[i]) by {}
        lemma_edges_deeper(
            elements,
            longer,
            edges,
            depth,
            (fuel - 1) as nat,
            (more - 1) as nat,
        );
    }
}

/// More depth changes nothing for the edges of a node.
proof fn lemma_edges_deeper(
    elements: Seq<Met>,
    way: Seq<int>,
    edges: Seq<int>,
    depth: nat,
    fuel: nat,
    more: nat,
)
    requires
        is_acyclic(elements),
        is_path(elements, way),
        way.len() > 0,
        forall|i: int|
            0 <= i < edges.len() ==> edges_from(elements, way.last()).contains(#[trigger] edges[i]),
        way.len() + fuel >= elements.len(),
        fuel <= more,
    ensures
        edges_text(elements, way.last(), edges, depth, fuel) == edges_text(
            elements,
            way.last(),
            edges,
            depth,
            more,
        ),
    decreases fuel, edges.len() + 1,
{
    if edges.len() > 0 {
        let fewer = edges.drop_last();
        assert forall|i: int| 0 <= i < fewer.len() implies edges_from(
            elements,
            way.last(),
        ).contains(#[trigger] fewer[i]) by {
            assert(fewer[i] == edges[i]);
        }
        lemma_edges_deeper(elements, way, fewer, depth, fuel, more);
        assert(edges[edges.len() - 1] == edges.last());
        lemma_deeper(elements, way, edges.last(), depth + 1, "+"@, fuel, more);
    }
}

/// The text of elements without a cycle is whole: to follow paths deeper would
/// add nothing.
pub proof fn lemma_text_is_whole(elements: Seq<Met>, fuel: nat)
    requires
        is_acyclic(elements),
        fuel >= elements.len(),
    ensures
        text_of(elements) == arrow(0, 1) + node_text(elements, 1, 0, "\\"@, fuel),
{
    let way: Seq<int> = seq![];
    assert(is_path(elements, way));
    lemma_deeper(elements, way, 1, 0, "\\"@, elements.len(), fuel);
}

/// The line of a node is that of the element met last with its identifier; there is
/// none exactly where no element has it. Edges have no line.
pub proof fn lemma_line_is_last(elements: Seq<Met>, node: int, i: int)
    ensures
        0 <= i < elements.len() && node > 0 && elements[i].id == node && (forall|j: int|
            i < j < elements.len() ==> (#[trigger] elements[j]).id != node) ==> line_in(
            elements,
            node,
        ) == Some(node_line(node, elements[i].values)),
        line_in(elements, node) is Some <==> node > 0 && exists|j: int|
            0 <= j < elements.len() && (#[trigger] elements[j]).id == node,
    decreases elements.len(),
{
    if elements.len() > 0 {
        let rest = elements.drop_last();
        lemma_line_is_last(rest, node, i);
        assert(forall|j: int| 0 <= j < rest.len() ==> #[trigger] rest[j] == elements[j]);
        assert(elements[elements.len() - 1] == elements.last());
        if 0 <= i < elements.len() && node > 0 && elements[i].id == node && (forall|j: int|
            i < j < elements.len() ==> (#[trigger] elements[j]).id != node) {
            if i < rest.len() {
                assert(elements[elements.len() - 1].id != node);
                assert(rest[i].id == node);
                assert forall|j: int| i < j < rest.len() implies (#[trigger] rest[j]).id != node by {
                    assert(elements[j].id != node);
                }
            }
        }
        if node > 0 && exists|j: int| 0 <= j < elements.len() && (#[trigger] elements[j]).id == node {
            let j = choose|j: int| 0 <= j < elements.len() && (#[trigger] elements[j]).id == node;
            if j < rest.len() {
                assert(rest[j].id == node);
            }
        }
        if exists|j: int| 0 <= j < rest.len() && (#[trigger] rest[j]).id == node {
            let j = choose|j: int| 0 <= j < rest.len() && (#[trigger] rest[j]).id == node;
            assert(elements[j].id == node);
        }
    }
}

/// The edges from a node, among elements in two parts, are those of the first part
/// and then those of the second; an edge is one from the node where it comes from.
pub proof fn lemma_edges_join(a: Seq<Met>, b: Seq<Met>, node: int)
    ensures
        edges_from(a + b, node) == edges_from(a, node) + edges_from(b, node),
        forall|e: Met|
            e.id < 0 && e.from == node ==> edges_from(#[trigger] seq![e], node) == seq![e.to],
        forall|e: Met|
            e.id > 0 || e.from != node ==> edges_from(#[trigger] seq![e], node).len() == 0,
    decreases b.len(),
{
    assert forall|e: Met|
        edges_from(#[trigger] seq![e], node) == (if e.id <= 0 && e.from == node {
            seq![e.to]
        } else {
            seq![]
        }) by {
        let one = seq![e];
        assert(one.drop_last() =~= seq![]);
        assert(edges_from(one.drop_last(), node) =~= seq![]);
        assert(one.last() == e);
    }
    if b.len() == 0 {
        assert(a + b =~= a);
        assert(edges_from(a, node) + edges_from(b, node) =~= edges_from(a, node));
    } else {
        lemma_edges_join(a, b.drop_last(), node);
        assert((a + b).drop_last() =~= a + b.drop_last());
        assert((a + b).last() == b.last());
        assert(edges_from(a + b, node) =~= edges_from(a, node) + edges_from(b, node));
    }
}

/// A node is shown by its logical identifier, else by its name; as its abstract
/// kind, else as a tag with its key and value, else as nothing.
pub proof fn lemma_shown(values: Properties)
    ensures
        store::property(values, "logical_id"@) is Some ==> Some(shown_name(values))
            == store::property(values, "logical_id"@),
        store::property(values, "logical_id"@) is None && store::property(values, "name"@)
            is Some ==> Some(shown_name(values)) == store::property(values, "name"@),
        store::property(values, "logical_id"@) is None && store::property(values, "name"@)
            is None ==> shown_name(values).len() == 0,
        store::property(values, "wa2_kind"@) is Some ==> Some(shown_kind(values))
            == store::property(values, "wa2_kind"@),
        store::property(values, "wa2_kind"@) is None && store::property(values, "key"@) is None
            ==> shown_kind(values) == "(none)"@,
        store::property(values, "wa2_kind"@) is None && store::property(values, "key"@) is Some
            && store::property(values, "key"@)->0.len() > 0 && store::property(values, "value"@)
            is Some ==> shown_kind(values) == "#"@ + store::property(values, "key"@)->0 + "="@
            + store::property(values, "value"@)->0,
{
    reveal_strlit("");
}

/// A number takes at least two columns, and ends with its digits.
#[verifier::rlimit(50)]
pub proof fn lemma_padded(n: nat)
    ensures
        padded(n).len() >= 2,
        text::has_suffix(padded(n), text::decimal(n)),
        n >= 10 ==> padded(n) == text::decimal(n),
        n < 10 ==> padded(n)[0] == ' ',
{
    reveal_strlit(" ");
    text::lemma_parts(text::decimal(n), text::decimal(n), " "@, seq![]);
    text::lemma_parts(text::decimal(n), text::decimal(n), seq![], seq![]);
    assert(Seq::<char>::empty() + text::decimal(n) =~= text::decimal(n));
    text::lemma_decimal_reads_back(n);
    if n >= 10 {
        text::lemma_decimal_reads_back(n / 10);
    }
}

proof fn lemma_edge_is_written(
    elements: Seq<Met>,
    node: int,
    edges: Seq<int>,
    depth: nat,
    fuel: nat,
    i: int,
)
    requires
        0 <= i < edges.len(),
    ensures
        text::has_part(
            edges_text(elements, node, edges, depth, fuel),
            arrow(number(node), number(edges[i])) + node_text(
                elements,
                edges[i],
                depth + 1,
                "+"@,
                fuel,
            ),
        ),
    decreases edges.len(),
{
    let rest = edges_text(elements, node, edges.drop_last(), depth, fuel);
    let own = arrow(number(node), number(edges.last())) + node_text(
        elements,
        edges.last(),
        depth + 1,
        "+"@,
        fuel,
    );
    let whole = edges_text(elements, node, edges, depth, fuel);
    assert(whole =~= rest + own);
    if i == edges.len() - 1 {
        text::lemma_halves(rest, own);
    } else {
        lemma_edge_is_written(elements, node, edges.drop_last(), depth, fuel, i);
        text::lemma_halves(rest, own);
        text::lemma_part_of_part(
            whole,
            rest,
            arrow(number(node), number(edges[i])) + node_text(
                elements,
                edges[i],
                depth + 1,
                "+"@,
                fuel,
            ),
        );
    }
}

/// The line of a node, indented by its depth, after its mark.
pub open spec fn written(elements: Seq<Met>, node: int, depth: nat, mark: Seq<char>) -> Seq<char> {
    text::repeated(" "@, depth) + mark + line_in(elements, node)->0 + "\n"@
}

proof fn lemma_node_is_written(
    elements: Seq<Met>,
    node: int,
    depth: nat,
    mark: Seq<char>,
    fuel: nat,
)
    requires
        line_in(elements, node) is Some,
        fuel > 0,
    ensures
        ({
            let below = edges_text(
                elements,
                node,
                edges_from(elements, node),
                depth,
                (fuel - 1) as nat,
            );
            let whole = node_text(elements, node, depth, mark, fuel);
            &&& whole == written(elements, node, depth, mark) + below
            &&& text::has_part(whole, written(elements, node, depth, mark))
            &&& text::has_part(whole, below)
        }),
{
    let below = edges_text(elements, node, edges_from(elements, node), depth, (fuel - 1) as nat);
    text::lemma_halves(written(elements, node, depth, mark), below);
}

proof fn lemma_step_is_written(
    elements: Seq<Met>,
    node: int,
    next: int,
    depth: nat,
    mark: Seq<char>,
    fuel: nat,
)
    requires
        line_in(elements, node) is Some,
        edges_from(elements, node).contains(next),
        fuel > 0,
    ensures
        text::has_part(
            node_text(elements, node, depth, mark, fuel),
            arrow(number(node), number(next)) + node_text(
                elements,
                next,
                depth + 1,
                "+"@,
                (fuel - 1) as nat,
            ),
        ),
{
    let edges = edges_from(elements, node);
    let i = choose|i: int| 0 <= i < edges.len() && edges[i] == next;
    lemma_edge_is_written(elements, node, edges, depth, (fuel - 1) as nat, i);
    lemma_node_is_written(elements, node, depth, mark, fuel);
    text::lemma_part_of_part(
        node_text(elements, node, depth, mark, fuel),
        edges_text(elements, node, edges, depth, (fuel - 1) as nat),
        arrow(number(node), number(next)) + node_text(
            elements,
            next,
            depth + 1,
            "+"@,
            (fuel - 1) as nat,
        ),
    );
}

proof fn lemma_path_is_written(
    elements: Seq<Met>,
    path: Seq<int>,
    depth: nat,
    mark: Seq<char>,
    fuel: nat,
)
    requires
        is_path(elements, path),
        1 < path.len() <= fuel,
    ensures
        text::has_part(
            node_text(elements, path[0], depth, mark, fuel),
            arrow(number(path[path.len() - 2]), number(path.last())) + written(
                elements,
                path.last(),
                (depth + path.len() - 1) as nat,
                "+"@,
            ),
        ),
    decreases path.len(),
{
    let node = path[0];
    let next = path[1];
    assert(edges_from(elements, node).contains(next));
    let head = arrow(number(node), number(next));
    let inner = node_text(elements, next, depth + 1, "+"@, (fuel - 1) as nat);
    let whole = node_text(elements, node, depth, mark, fuel);
    lemma_step_is_written(elements, node, next, depth, mark, fuel);
    if path.len() == 2 {
        let own = written(elements, next, depth + 1, "+"@);
        lemma_node_is_written(elements, next, depth + 1, "+"@, (fuel - 1) as nat);
        let below = edges_text(
            elements,
            next,
            edges_from(elements, next),
            depth + 1,
            (fuel - 2) as nat,
        );
        assert(head + (own + below) =~= (head + own) + below);
        text::lemma_halves(head + own, below);
        text::lemma_part_of_part(whole, head + inner, head + own);
        assert(path.last() == next);
    } else {
        let rest = path.skip(1);
        lemma_rest_is_path(elements, path);
        lemma_path_is_written(elements, rest, depth + 1, "+"@, (fuel - 1) as nat);
        assert(rest.last() == path.last());
        assert(rest[rest.len() - 2] == path[path.len() - 2]);
        text::lemma_halves(head, inner);
        let sought = arrow(number(path[path.len() - 2]), number(path.last())) + written(
            elements,
            path.last(),
            (depth + path.len() - 1) as nat,
            "+"@,
        );
        text::lemma_part_of_part(head + inner, inner, sought);
        text::lemma_part_of_part(whole, head + inner, sought);
    }
}

proof fn lemma_rest_is_path(elements: Seq<Met>, path: Seq<int>)
    requires
        is_path(elements, path),
        path.len() > 1,
    ensures
        is_path(elements, path.skip(1)),
{
    let rest = path.skip(1);
    assert forall|k: int| 0 <= k < rest.len() implies line_in(
        elements,
        #[trigger] rest[k],
    ) is Some by {
        assert(rest[k] == path[k + 1]);
    }
    assert forall|k: int, l: int|
        #![trigger rest[k], rest[l]]
        0 <= k && l == k + 1 && l < rest.len() implies edges_from(elements, rest[k]).contains(
        rest[l],
    ) by {
        assert(rest[k] == path[k + 1]);
        assert(rest[l] == path[l + 1]);
    }
}

/// The text of elements without a cycle shows the end of every path from the first
/// node: indented by the length of the path, after an arrow from the node before it.
pub proof fn lemma_text_shows_paths(elements: Seq<Met>, path: Seq<int>)
    requires
        is_acyclic(elements),
        is_path(elements, path),
        path.len() > 0,
        path[0] == 1,
    ensures
        path.len() == 1 ==> text::has_part(text_of(elements), written(elements, 1, 0, "\\"@)),
        path.len() > 1 ==> text::has_part(
            text_of(elements),
            arrow(number(path[path.len() - 2]), number(path.last())) + written(
                elements,
                path.last(),
                (path.len() - 1) as nat,
                "+"@,
            ),
        ),
{
    lemma_path_is_short(elements, path);
    let inner = node_text(elements, 1, 0, "\\"@, elements.len());
    text::lemma_halves(arrow(0, 1), inner);
    if path.len() == 1 {
        lemma_node_is_written(elements, 1, 0, "\\"@, elements.len());
        text::lemma_part_of_part(text_of(elements), inner, written(elements, 1, 0, "\\"@));
    } else {
        lemma_path_is_written(elements, path, 0, "\\"@, elements.len());
        let from = arrow(number(path[path.len() - 2]), number(path.last()));
        let own = written(elements, path.last(), (path.len() - 1) as nat, "+"@);
        text::lemma_part_of_part(text_of(elements), inner, from + own);
    }
}

/// What was met is shown as it is stored: a node by the line of its properties, and
/// an edge as leading from where it comes to where it goes.
pub proof fn lemma_met_is_shown(contents: Seq<Element>, ids: Seq<int>, id: int)
    requires
        ids.no_duplicates(),
        ids.contains(id),
        store::is_element(contents, id),
    ensures
        id > 0 ==> line_in(met_in(contents, ids), id) == Some(
            node_line(id, contents[store::position(id)].2),
        ),
        id < 0 ==> edges_from(met_in(contents, ids), contents[store::position(id)].0).contains(
            contents[store::position(id)].1,
        ),
{
    let elements = met_in(contents, ids);
    let k = choose|k: int| 0 <= k < ids.len() && ids[k] == id;
    assert(elements[k].id == id);
    if id > 0 {
        assert forall|j: int| k < j < elements.len() implies (#[trigger] elements[j]).id != id by {
            assert(ids[j] != ids[k]);
        }
        lemma_line_is_last(elements, id, k);
    } else {
        let from = contents[store::position(id)].0;
        let a = elements.take(k);
        let one = seq![elements[k]];
        let b = elements.skip(k + 1);
        assert(elements =~= (a + one) + b);
        lemma_edges_join(a + one, b, from);
        lemma_edges_join(a, one, from);
        let all = edges_from(elements, from);
        let e = elements[k];
        assert(e.id < 0 && e.from == from);
        assert(edges_from(seq![e], from) == seq![e.to]);
        assert(all == (edges_from(a, from) + seq![e.to]) + edges_from(b, from));
        assert(all[edges_from(a, from).len() as int] == contents[store::position(id)].1);
    }
}

/// Edges are written in order: the text of edges in two parts is that of the first
/// part and then that of the second.
pub proof fn lemma_edges_are_written_in_order(
    elements: Seq<Met>,
    node: int,
    a: Seq<int>,
    b: Seq<int>,
    depth: nat,
    fuel: nat,
)
    ensures
        edges_text(elements, node, a + b, depth, fuel) == edges_text(
            elements,
            node,
            a,
            depth,
            fuel,
        ) + edges_text(elements, node, b, depth, fuel),
    decreases b.len(),
{
    let first = edges_text(elements, node, a, depth, fuel);
    if b.len() == 0 {
        assert(a + b =~= a);
        assert(first + edges_text(elements, node, b, depth, fuel) =~= first);
    } else {
        lemma_edges_are_written_in_order(elements, node, a, b.drop_last(), depth, fuel);
        assert((a + b).drop_last() =~= a + b.drop_last());
        assert((a + b).last() == b.last());
        assert(edges_text(elements, node, a + b, depth, fuel) =~= first + edges_text(
            elements,
            node,
            b,
            depth,
            fuel,
        ));
    }
}

} // verus!
