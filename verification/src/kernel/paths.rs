//! What queries mean: the nodes and literals that a path leads to.

use vstd::prelude::*;

use crate::kernel::ast::{Axis, Literal, QualifiedName, QueryPredicate, QueryStep};
use crate::model::view::{self, ModelView};
use crate::model::EntityId;

verus! {

// ---------------------------------------------------------------------------
// Lists of nodes
// ---------------------------------------------------------------------------

/// A list with an element at its end, unless the list holds it already.
pub open spec fn add_new(list: Seq<EntityId>, id: EntityId) -> Seq<EntityId> {
    if list.contains(id) {
        list
    } else {
        list.push(id)
    }
}

/// The elements that pass a test, each once, in the order of first occurrence.
pub open spec fn distinct(list: Seq<EntityId>, test: spec_fn(EntityId) -> bool) -> Seq<EntityId>
    decreases list.len(),
{
    if list.len() == 0 {
        seq![]
    } else {
        let rest = distinct(list.drop_last(), test);
        if test(list.last()) {
            add_new(rest, list.last())
        } else {
            rest
        }
    }
}

/// The elements that pass a test, in order.
pub open spec fn passing(list: Seq<EntityId>, test: spec_fn(EntityId) -> bool) -> Seq<EntityId>
    decreases list.len(),
{
    if list.len() == 0 {
        seq![]
    } else {
        let rest = passing(list.drop_last(), test);
        if test(list.last()) {
            rest.push(list.last())
        } else {
            rest
        }
    }
}

/// The lists that a function gives for the elements, one after another.
pub open spec fn gathered<T>(list: Seq<EntityId>, f: spec_fn(EntityId) -> Seq<T>) -> Seq<T>
    decreases list.len(),
{
    if list.len() == 0 {
        seq![]
    } else {
        gathered(list.drop_last(), f) + f(list.last())
    }
}

/// The identifiers of all entities.
pub open spec fn all_ids(m: ModelView) -> Seq<EntityId> {
    Seq::new(m.names.len(), |i: int| view::id_at(i))
}

// ---------------------------------------------------------------------------
// Descendants
// ---------------------------------------------------------------------------

/// A traversal in progress: what was found, and what is still to be opened.
pub struct Walk {
    pub found: Seq<EntityId>,
    pub open: Seq<EntityId>,
}

/// The traversal after some nodes were met: each new one is found, and opened
/// later.
pub open spec fn met(walk: Walk, nodes: Seq<EntityId>) -> Walk
    decreases nodes.len(),
{
    if nodes.len() == 0 {
        walk
    } else {
        let w = met(walk, nodes.drop_last());
        if w.found.contains(nodes.last()) {
            w
        } else {
            Walk { found: w.found.push(nodes.last()), open: w.open.push(nodes.last()) }
        }
    }
}

/// What a traversal finds that opens at most `fuel` more nodes, the one met last
/// first.
pub open spec fn walked(m: ModelView, walk: Walk, fuel: nat) -> Seq<EntityId>
    decreases fuel,
{
    if fuel == 0 || walk.open.len() == 0 {
        walk.found
    } else {
        let rest = Walk { open: walk.open.drop_last(), ..walk };
        walked(m, met(rest, m.children(walk.open.last())), (fuel - 1) as nat)
    }
}

/// The nodes below a node, in the order in which a traversal finds them.
///
/// No node is opened twice, and each one opened but the first is the object of
/// a statement: the traversal ends before it runs out of steps.
pub open spec fn descendants(m: ModelView, node: EntityId) -> Seq<EntityId> {
    walked(m, Walk { found: seq![], open: seq![node] }, m.facts.len() + 1)
}

// ---------------------------------------------------------------------------
// Literals that a path leads to
// ---------------------------------------------------------------------------

/// The entities that a step leads to from a node: those linked under the
/// predicate that the step names.
pub open spec fn step_links(m: ModelView, test: Option<QualifiedName>, node: EntityId) -> Seq<
    EntityId,
> {
    match test {
        Some(name) => view::entities_of(m.named_objects(node, name.text())),
        None => seq![],
    }
}

/// The entities that the steps lead to from some nodes, predicate by predicate.
pub open spec fn followed(m: ModelView, nodes: Seq<EntityId>, steps: Seq<QueryStep>) -> Seq<EntityId>
    decreases steps.len(),
{
    if steps.len() == 0 {
        nodes
    } else {
        gathered(
            followed(m, nodes, steps.drop_last()),
            |n: EntityId| step_links(m, steps.last().node_test, n),
        )
    }
}

/// The literals that a path leads to from a node: those of the entities at its
/// end, or, where there are none and the path is one step, the node's own under
/// the predicate that the step names.
pub open spec fn path_literals(m: ModelView, start: EntityId, steps: Seq<QueryStep>) -> Seq<
    Seq<char>,
> {
    let ends = followed(m, seq![start], steps);
    let found = gathered(ends, |n: EntityId| view::own_literals(m.facts, n));
    if found.len() == 0 && steps.len() == 1 {
        match steps[0].node_test {
            Some(name) => view::literals_of(m.named_objects(start, name.text())),
            None => found,
        }
    } else {
        found
    }
}

/// The literals that a path leads to from some nodes, node by node.
pub open spec fn all_literals(m: ModelView, starts: Seq<EntityId>, steps: Seq<QueryStep>) -> Seq<
    Seq<char>,
> {
    gathered(starts, |n: EntityId| path_literals(m, n, steps))
}

/// Whether some constant is among the texts.
pub open spec fn holds_any(texts: Seq<Seq<char>>, literals: Seq<Literal>) -> bool {
    exists|i: int| 0 <= i < literals.len() && texts.contains((#[trigger] literals[i]).text())
}

/// Whether a node meets a condition.
pub open spec fn condition_holds(m: ModelView, node: EntityId, condition: QueryPredicate) -> bool {
    match condition {
        QueryPredicate::Eq(path, literal) => path_literals(m, node, path.steps@).contains(
            literal.text(),
        ),
        QueryPredicate::In(path, literals) => holds_any(
            path_literals(m, node, path.steps@),
            literals@,
        ),
        QueryPredicate::Exists(path) => path_literals(m, node, path.steps@).len() > 0,
    }
}

/// Whether a node meets all conditions.
pub open spec fn conditions_hold(
    m: ModelView,
    node: EntityId,
    conditions: Seq<QueryPredicate>,
) -> bool {
    forall|i: int|
        0 <= i < conditions.len() ==> condition_holds(m, node, #[trigger] conditions[i])
}

// ---------------------------------------------------------------------------
// Nodes that a path leads to
// ---------------------------------------------------------------------------

/// Whether an entity is a type.
pub open spec fn is_type(m: ModelView, id: EntityId) -> bool {
    match m.resolve("wa2:Type"@) {
        Some(t) => m.has_type(id, t),
        None => false,
    }
}

/// Whether an entity has the type that a name denotes, or, where the name does
/// not denote a type, is the entity that it denotes.
pub open spec fn answers_to(m: ModelView, test: Option<QualifiedName>, id: EntityId) -> bool {
    match test {
        Some(name) => match m.resolve(name.text()) {
            Some(named) => if is_type(m, named) {
                m.has_type(id, named)
            } else {
                id == named
            },
            None => false,
        },
        None => true,
    }
}

/// Whether an entity passes the first step of a query.
pub open spec fn scan_test(m: ModelView, step: QueryStep, id: EntityId) -> bool {
    answers_to(m, step.node_test, id) && conditions_hold(m, id, step.predicates@)
}

/// The entities that pass the first step of a query, wherever they stand.
pub open spec fn scanned(m: ModelView, step: QueryStep) -> Seq<EntityId> {
    distinct(all_ids(m), |id: EntityId| scan_test(m, step, id))
}

/// The nodes in the direction of an axis.
pub open spec fn on_axis(m: ModelView, axis: Axis, node: EntityId) -> Seq<EntityId> {
    match axis {
        Axis::Child => m.children(node),
        _ => descendants(m, node),
    }
}

/// The nodes that a step reaches from a node, its conditions left aside: those
/// in its direction with the type that it names, and, for a step to children,
/// the entities linked under the predicate that it names.
pub open spec fn reached(m: ModelView, step: QueryStep, node: EntityId) -> Seq<EntityId> {
    let around = on_axis(m, step.axis, node);
    match step.node_test {
        Some(name) => match m.resolve(name.text()) {
            Some(named) => {
                let typed = passing(around, |id: EntityId| m.has_type(id, named));
                if step.axis == Axis::Child {
                    typed + view::entities_of(view::objects(m.facts, node, named))
                } else {
                    typed
                }
            },
            None => seq![],
        },
        None => around,
    }
}

/// The nodes that a step leads to from some nodes, each once.
pub open spec fn stepped(m: ModelView, nodes: Seq<EntityId>, step: QueryStep) -> Seq<EntityId> {
    distinct(
        gathered(nodes, |n: EntityId| reached(m, step, n)),
        |id: EntityId| conditions_hold(m, id, step.predicates@),
    )
}

/// The nodes that some steps lead to from some nodes.
pub open spec fn stepped_all(m: ModelView, nodes: Seq<EntityId>, steps: Seq<QueryStep>) -> Seq<
    EntityId,
>
    decreases steps.len(),
{
    if steps.len() == 0 {
        nodes
    } else {
        stepped(m, stepped_all(m, nodes, steps.drop_last()), steps.last())
    }
}

/// The result of a query: its first step scans all entities, the others go on
/// from there.
pub open spec fn query_result(m: ModelView, steps: Seq<QueryStep>) -> Seq<EntityId> {
    if steps.len() == 0 {
        seq![]
    } else {
        stepped_all(m, scanned(m, steps[0]), steps.skip(1))
    }
}

} // verus!
