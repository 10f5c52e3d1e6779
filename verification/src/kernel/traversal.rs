//! What holds of traversals and queries, whatever the graph.

use vstd::prelude::*;

use crate::kernel::ast::QueryStep;
use crate::kernel::paths::{self, Walk};
use crate::model::view::{self, Fact, ModelView, ValueView};
use crate::model::EntityId;

verus! {

// ---------------------------------------------------------------------------
// The traversal ends in time
// ---------------------------------------------------------------------------

/// The entities that occur as objects.
pub open spec fn object_set(facts: Seq<Fact>) -> Set<EntityId>
    decreases facts.len(),
{
    if facts.len() == 0 {
        Set::empty()
    } else {
        let rest = object_set(facts.drop_last());
        match facts.last().object {
            ValueView::Entity(id) => rest.insert(id),
            _ => rest,
        }
    }
}

/// There are no more objects than statements.
pub proof fn lemma_object_set_bound(facts: Seq<Fact>)
    ensures
        object_set(facts).finite(),
        object_set(facts).len() <= facts.len(),
    decreases facts.len(),
{
    if facts.len() > 0 {
        lemma_object_set_bound(facts.drop_last());
    }
}

/// Linked entities are objects.
pub proof fn lemma_linked_is_object(facts: Seq<Fact>, s: EntityId, p: EntityId)
    ensures
        forall|i: int|
            0 <= i < view::entities_of(view::objects(facts, s, p)).len() ==> object_set(
                facts,
            ).contains(#[trigger] view::entities_of(view::objects(facts, s, p))[i]),
    decreases facts.len(),
{
    if facts.len() > 0 {
        lemma_linked_is_object(facts.drop_last(), s, p);
        let rest = view::objects(facts.drop_last(), s, p);
        let all = view::entities_of(view::objects(facts, s, p));
        let last = facts.last();
        if last.subject == s && last.predicate == p {
            assert(rest.push(last.object).drop_last() =~= rest);
        }
        assert forall|i: int| 0 <= i < all.len() implies object_set(facts).contains(
            #[trigger] all[i],
        ) by {
            let before = view::entities_of(rest);
            if i < before.len() {
                assert(all[i] == before[i]);
            }
        }
    }
}

/// What a node contains are objects.
pub proof fn lemma_children_are_objects(m: ModelView, node: EntityId)
    ensures
        forall|i: int|
            0 <= i < m.children(node).len() ==> object_set(m.facts).contains(
                #[trigger] m.children(node)[i],
            ),
{
    match m.resolve("wa2:contains"@) {
        Some(p) => {
            lemma_linked_is_object(m.facts, node, p);
        },
        None => {},
    }
}

/// A traversal finds no more nodes than there are statements.
pub proof fn lemma_found_fits(m: ModelView, found: Seq<EntityId>)
    requires
        found.no_duplicates(),
        forall|i: int| 0 <= i < found.len() ==> object_set(m.facts).contains(#[trigger] found[i]),
    ensures
        found.len() <= m.facts.len(),
{
    lemma_object_set_bound(m.facts);
    found.unique_seq_to_set();
    assert(found.to_set().subset_of(object_set(m.facts)));
    vstd::set_lib::lemma_len_subset(found.to_set(), object_set(m.facts));
}

// ---------------------------------------------------------------------------
// A traversal finds what can be reached
// ---------------------------------------------------------------------------

/// Whether each node of a path, but for the first, is contained in the one
/// before.
pub open spec fn is_path(m: ModelView, path: Seq<EntityId>) -> bool {
    forall|i: int|
        0 < i < path.len() ==> m.children(path[i - 1]).contains(#[trigger] path[i])
}

/// Whether a node stands below another one, at any depth.
pub open spec fn is_below(m: ModelView, top: EntityId, node: EntityId) -> bool {
    exists|path: Seq<EntityId>| #[trigger] is_path_between(m, top, node, path)
}

/// Whether a path of one step or more leads from a node to another one.
pub open spec fn is_path_between(m: ModelView, top: EntityId, node: EntityId, path: Seq<EntityId>) -> bool {
    &&& path.len() >= 2
    &&& path[0] == top
    &&& path.last() == node
    &&& is_path(m, path)
}

/// What stands below a node has its own children below that node too.
proof fn lemma_below_step(m: ModelView, top: EntityId, node: EntityId, child: EntityId)
    requires
        node == top || is_below(m, top, node),
        m.children(node).contains(child),
    ensures
        is_below(m, top, child),
{
    if is_below(m, top, node) {
        let path = choose|path: Seq<EntityId>| #[trigger] is_path_between(m, top, node, path);
        let longer = path.push(child);
        assert forall|i: int| 0 < i < longer.len() implies m.children(longer[i - 1]).contains(
            #[trigger] longer[i],
        ) by {
            if i < path.len() {
                assert(path[i] == longer[i]);
            }
        }
        assert(is_path_between(m, top, child, longer));
    } else {
        let path = seq![top, child];
        assert(is_path_between(m, top, child, path));
    }
}

/// A traversal that has found only nodes below its start, and whose nodes are
/// found with their children or still open.
spec fn is_sound(m: ModelView, top: EntityId, w: Walk) -> bool {
    &&& w.found.no_duplicates()
    &&& forall|x: EntityId| #[trigger] w.found.contains(x) ==> is_below(m, top, x)
    &&& forall|x: EntityId| #[trigger] w.open.contains(x) ==> x == top || w.found.contains(x)
    &&& forall|x: EntityId, y: EntityId|
        (x == top || w.found.contains(x)) && !w.open.contains(x) && #[trigger] m.children(
            x,
        ).contains(y) ==> w.found.contains(y)
}

proof fn lemma_met(w: Walk, nodes: Seq<EntityId>)
    requires
        w.found.no_duplicates(),
    ensures
        ({
            let after = paths::met(w, nodes);
            &&& after.found.no_duplicates()
            &&& forall|x: EntityId| #[trigger]
                after.found.contains(x) <==> w.found.contains(x) || nodes.contains(x)
            &&& forall|x: EntityId| #[trigger]
                after.open.contains(x) <==> w.open.contains(x) || (nodes.contains(x)
                    && !w.found.contains(x))
            &&& after.found.len() - w.found.len() == after.open.len() - w.open.len()
        }),
    decreases nodes.len(),
{
    if nodes.len() > 0 {
        let rest = nodes.drop_last();
        lemma_met(w, rest);
        let before = paths::met(w, rest);
        let after = paths::met(w, nodes);
        let last = nodes.last();
        assert forall|x: EntityId| nodes.contains(x) <==> rest.contains(x) || x == last by {
            if nodes.contains(x) {
                let i = choose|i: int| 0 <= i < nodes.len() && nodes[i] == x;
                if i < rest.len() {
                    assert(rest[i] == x);
                }
            }
            if rest.contains(x) {
                let i = choose|i: int| 0 <= i < rest.len() && rest[i] == x;
                assert(nodes[i] == x);
            }
            if x == last {
                assert(nodes[nodes.len() - 1] == x);
            }
        }
        if !before.found.contains(last) {
            lemma_push_contains(before.found, last);
            lemma_push_contains(before.open, last);
        }
    }
}

proof fn lemma_push_contains(list: Seq<EntityId>, id: EntityId)
    ensures
        forall|x: EntityId| #[trigger] list.push(id).contains(x) <==> list.contains(x) || x == id,
{
    let longer = list.push(id);
    assert forall|x: EntityId| #[trigger] longer.contains(x) <==> list.contains(x) || x == id by {
        if list.contains(x) {
            let i = choose|i: int| 0 <= i < list.len() && list[i] == x;
            assert(longer[i] == x);
        }
        if x == id {
            assert(longer[list.len() as int] == x);
        }
    }
}

proof fn lemma_walked(m: ModelView, top: EntityId, w: Walk, fuel: nat)
    requires
        is_sound(m, top, w),
        forall|i: int| 0 <= i < w.found.len() ==> object_set(m.facts).contains(#[trigger] w.found[i]),
        fuel + w.found.len() >= m.facts.len() + w.open.len(),
    ensures
        ({
            let all = paths::walked(m, w, fuel);
            &&& all.no_duplicates()
            &&& forall|x: EntityId| #[trigger] all.contains(x) ==> is_below(m, top, x)
            &&& forall|x: EntityId, y: EntityId|
                (x == top || all.contains(x)) && #[trigger] m.children(x).contains(y)
                    ==> all.contains(y)
        }),
    decreases fuel,
{
    lemma_found_fits(m, w.found);
    if w.open.len() == 0 {
        assert(forall|x: EntityId| !w.open.contains(x));
    } else {
        let current = w.open.last();
        let rest = Walk { open: w.open.drop_last(), ..w };
        let children = m.children(current);
        let next = paths::met(rest, children);
        lemma_met(rest, children);
        lemma_children_are_objects(m, current);
        assert(w.open.contains(current)) by {
            assert(w.open[w.open.len() - 1] == current);
        }
        assert forall|x: EntityId| w.open.contains(x) <==> rest.open.contains(x) || x == current by {
            assert(w.open =~= rest.open.push(current));
            lemma_push_contains(rest.open, current);
        }
        assert forall|x: EntityId| #[trigger] next.found.contains(x) implies is_below(m, top, x) by {
            if children.contains(x) {
                lemma_below_step(m, top, current, x);
            }
        }
        assert forall|i: int| 0 <= i < next.found.len() implies object_set(m.facts).contains(
            #[trigger] next.found[i],
        ) by {
            let x = next.found[i];
            assert(next.found.contains(x));
            if w.found.contains(x) {
                let k = choose|k: int| 0 <= k < w.found.len() && w.found[k] == x;
                assert(object_set(m.facts).contains(w.found[k]));
            } else {
                let k = choose|k: int| 0 <= k < children.len() && children[k] == x;
                assert(object_set(m.facts).contains(children[k]));
            }
        }
        lemma_walked(m, top, next, (fuel - 1) as nat);
    }
}

/// What holds of the start and of the children of what it holds of, holds of
/// every node on a path.
proof fn lemma_closed_holds_path(m: ModelView, top: EntityId, all: Seq<EntityId>, path: Seq<EntityId>, k: int)
    requires
        forall|x: EntityId, y: EntityId|
            (x == top || all.contains(x)) && #[trigger] m.children(x).contains(y) ==> all.contains(
                y,
            ),
        path.len() >= 2,
        path[0] == top,
        is_path(m, path),
        1 <= k < path.len(),
    ensures
        all.contains(path[k]),
    decreases k,
{
    if k > 1 {
        lemma_closed_holds_path(m, top, all, path, k - 1);
    }
    assert(m.children(path[k - 1]).contains(path[k]));
}

/// The descendants of a node are the nodes that stand below it at any depth,
/// each once, cycles or not.
pub proof fn lemma_descendants_are_all_below(m: ModelView, top: EntityId)
    ensures
        paths::descendants(m, top).no_duplicates(),
        forall|x: EntityId| #[trigger]
            paths::descendants(m, top).contains(x) <==> is_below(m, top, x),
{
    let w = Walk { found: seq![], open: seq![top] };
    assert(w.open.contains(top)) by {
        assert(w.open[0] == top);
    }
    lemma_walked(m, top, w, m.facts.len() + 1);
    let all = paths::descendants(m, top);
    assert forall|x: EntityId| is_below(m, top, x) implies #[trigger] all.contains(x) by {
        let path = choose|path: Seq<EntityId>| #[trigger] is_path_between(m, top, x, path);
        lemma_closed_holds_path(m, top, all, path, path.len() - 1);
    }
}

// ---------------------------------------------------------------------------
// Results of queries
// ---------------------------------------------------------------------------

/// The distinct elements that pass a test are those that pass it, each once.
pub proof fn lemma_distinct(list: Seq<EntityId>, test: spec_fn(EntityId) -> bool)
    ensures
        paths::distinct(list, test).no_duplicates(),
        forall|x: EntityId| #[trigger]
            paths::distinct(list, test).contains(x) <==> list.contains(x) && test(x),
    decreases list.len(),
{
    if list.len() > 0 {
        let rest = list.drop_last();
        lemma_distinct(rest, test);
        lemma_push_contains(rest, list.last());
        assert(list =~= rest.push(list.last()));
        lemma_push_contains(paths::distinct(rest, test), list.last());
    }
}

/// What passes a test is among what passes it.
pub proof fn lemma_passing(list: Seq<EntityId>, test: spec_fn(EntityId) -> bool)
    ensures
        forall|x: EntityId| #[trigger]
            paths::passing(list, test).contains(x) <==> list.contains(x) && test(x),
    decreases list.len(),
{
    if list.len() > 0 {
        let rest = list.drop_last();
        lemma_passing(rest, test);
        lemma_push_contains(rest, list.last());
        assert(list =~= rest.push(list.last()));
        lemma_push_contains(paths::passing(rest, test), list.last());
    }
}

/// What a node contains stands below it.
pub proof fn lemma_child_is_below(m: ModelView, top: EntityId, child: EntityId)
    requires
        m.children(top).contains(child),
    ensures
        paths::descendants(m, top).contains(child),
{
    lemma_below_step(m, top, top, child);
    lemma_descendants_are_all_below(m, top);
}

/// No query gives a node twice.
pub proof fn lemma_query_result_distinct(m: ModelView, steps: Seq<QueryStep>)
    ensures
        paths::query_result(m, steps).no_duplicates(),
{
    if steps.len() > 0 {
        lemma_distinct(
            paths::all_ids(m),
            |id: EntityId| paths::scan_test(m, steps[0], id),
        );
        let rest = steps.skip(1);
        if rest.len() > 0 {
            let nodes = paths::stepped_all(m, paths::scanned(m, steps[0]), rest.drop_last());
            lemma_distinct(
                paths::gathered(nodes, |n: EntityId| paths::reached(m, rest.last(), n)),
                |id: EntityId| paths::conditions_hold(m, id, rest.last().predicates@),
            );
        }
    }
}

/// A query of one step gives the entities that pass the step, wherever they
/// stand in the graph, whatever the axis.
pub proof fn lemma_single_step_scans_all(m: ModelView, step: QueryStep, id: EntityId)
    ensures
        paths::query_result(m, seq![step]).contains(id) <==> paths::scan_test(m, step, id)
            && paths::all_ids(m).contains(id),
{
    assert(seq![step].skip(1) =~= seq![]);
    lemma_distinct(paths::all_ids(m), |id: EntityId| paths::scan_test(m, step, id));
}

/// All nodes that a query gives meet the conditions of its last step.
pub proof fn lemma_query_result_meets_conditions(m: ModelView, steps: Seq<QueryStep>, id: EntityId)
    requires
        steps.len() > 0,
        paths::query_result(m, steps).contains(id),
    ensures
        paths::conditions_hold(m, id, steps.last().predicates@),
{
    lemma_distinct(paths::all_ids(m), |id: EntityId| paths::scan_test(m, steps[0], id));
    let rest = steps.skip(1);
    if rest.len() > 0 {
        let nodes = paths::stepped_all(m, paths::scanned(m, steps[0]), rest.drop_last());
        lemma_distinct(
            paths::gathered(nodes, |n: EntityId| paths::reached(m, rest.last(), n)),
            |id: EntityId| paths::conditions_hold(m, id, rest.last().predicates@),
        );
        assert(rest.last() == steps.last());
    }
}

proof fn lemma_met_in_order(w: Walk, nodes: Seq<EntityId>)
    requires
        (w.found + nodes).no_duplicates(),
    ensures
        paths::met(w, nodes).found == w.found + nodes,
        paths::met(w, nodes).open == w.open + nodes,
    decreases nodes.len(),
{
    if nodes.len() == 0 {
        assert(w.found + nodes =~= w.found);
        assert(w.open + nodes =~= w.open);
    } else {
        let rest = nodes.drop_last();
        let all = w.found + nodes;
        assert((w.found + rest).no_duplicates()) by {
            assert forall|i: int, j: int|
                0 <= i < (w.found + rest).len() && 0 <= j < (w.found + rest).len() && i
                    != j implies (w.found + rest)[i] != (w.found + rest)[j] by {
                assert((w.found + rest)[i] == all[i] && (w.found + rest)[j] == all[j]);
            }
        }
        lemma_met_in_order(w, rest);
        let last = nodes.last();
        assert(all[all.len() - 1] == last);
        if (w.found + rest).contains(last) {
            let i = choose|i: int|
                0 <= i < (w.found + rest).len() && (w.found + rest)[i] == last;
            assert(all[i] == last);
        }
        assert((w.found + rest).push(last) =~= all);
        assert((w.open + rest).push(last) =~= w.open + nodes);
    }
}

proof fn lemma_met_keeps(w: Walk, nodes: Seq<EntityId>)
    ensures
        w.found.is_prefix_of(paths::met(w, nodes).found),
    decreases nodes.len(),
{
    if nodes.len() > 0 {
        lemma_met_keeps(w, nodes.drop_last());
    }
}

proof fn lemma_walk_keeps(m: ModelView, w: Walk, fuel: nat)
    ensures
        w.found.is_prefix_of(paths::walked(m, w, fuel)),
    decreases fuel,
{
    if fuel > 0 && w.open.len() > 0 {
        let rest = Walk { open: w.open.drop_last(), ..w };
        let next = paths::met(rest, m.children(w.open.last()));
        lemma_met_keeps(rest, m.children(w.open.last()));
        lemma_walk_keeps(m, next, (fuel - 1) as nat);
    }
}

/// What stands below a node is found in the order of a traversal from the last node
/// met: the children of the node come first, in order, and then those of the last of
/// them.
pub proof fn lemma_descendants_in_order(m: ModelView, node: EntityId)
    ensures
        m.children(node).no_duplicates() ==> m.children(node).is_prefix_of(
            paths::descendants(m, node),
        ),
        m.children(node).len() > 0 && (m.children(node) + m.children(
            m.children(node).last(),
        )).no_duplicates() ==> (m.children(node) + m.children(
            m.children(node).last(),
        )).is_prefix_of(paths::descendants(m, node)),
{
    let none: Seq<EntityId> = seq![];
    let start = Walk { found: none, open: seq![node] };
    let fuel = m.facts.len();
    let children = m.children(node);
    let rest = Walk { found: none, open: none };
    assert(start.open.drop_last() =~= none);
    let next = paths::met(rest, children);
    assert(paths::descendants(m, node) == paths::walked(m, next, fuel));
    assert(none + children =~= children);
    if children.no_duplicates() {
        lemma_met_in_order(rest, children);
        lemma_walk_keeps(m, next, fuel);
    }
    if children.len() > 0 && (children + m.children(children.last())).no_duplicates() {
        let more = m.children(children.last());
        let both = children + more;
        assert(children.no_duplicates()) by {
            assert forall|i: int, j: int|
                0 <= i < children.len() && 0 <= j < children.len() && i != j implies children[i]
                != children[j] by {
                assert(both[i] == children[i] && both[j] == children[j]);
            }
        }
        lemma_met_in_order(rest, children);
        assert(next.open.last() == children.last());
        lemma_children_are_objects(m, node);
        assert(fuel > 0) by {
            if fuel == 0 {
                assert(view::objects(m.facts, node, m.resolve("wa2:contains"@)->0) =~= seq![]);
            }
        }
        let left = Walk { open: next.open.drop_last(), ..next };
        let third = paths::met(left, more);
        lemma_met_in_order(left, more);
        lemma_walk_keeps(m, third, (fuel - 1) as nat);
    }
}

} // verus!
