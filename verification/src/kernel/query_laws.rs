//! What queries give, in terms of the statements of the graph.

use vstd::prelude::*;

use crate::kernel::ast::{Axis, QueryPredicate, QueryStep};
use crate::kernel::paths;
use crate::kernel::semantics::{self, EnvView};
use crate::kernel::traversal;
use crate::model::laws as graph;
use crate::model::view::{self, ModelView, ValueView};
use crate::model::EntityId;

verus! {

// ---------------------------------------------------------------------------
// Lists
// ---------------------------------------------------------------------------

/// What is gathered from a list is what the function gives for some element.
pub proof fn lemma_gathered<T>(list: Seq<EntityId>, f: spec_fn(EntityId) -> Seq<T>, x: T)
    ensures
        paths::gathered(list, f).contains(x) <==> exists|n: EntityId|
            list.contains(n) && #[trigger] f(n).contains(x),
    decreases list.len(),
{
    let all = paths::gathered(list, f);
    if list.len() > 0 {
        let rest = list.drop_last();
        let before = paths::gathered(rest, f);
        let last = f(list.last());
        lemma_gathered(rest, f, x);
        if before.contains(x) {
            let i = choose|i: int| 0 <= i < before.len() && before[i] == x;
            assert(all[i] == x);
            let n = choose|n: EntityId| rest.contains(n) && #[trigger] f(n).contains(x);
            let k = choose|k: int| 0 <= k < rest.len() && rest[k] == n;
            assert(list[k] == n);
            assert(f(n).contains(x));
        }
        if last.contains(x) {
            let i = choose|i: int| 0 <= i < last.len() && last[i] == x;
            assert(all[before.len() + i] == x);
            assert(list[list.len() - 1] == list.last());
            assert(list.contains(list.last()));
        }
        if all.contains(x) {
            let i = choose|i: int| 0 <= i < all.len() && all[i] == x;
            if i < before.len() {
                assert(before[i] == x);
            } else {
                assert(last[i - before.len()] == x);
            }
        }
        if exists|n: EntityId| list.contains(n) && #[trigger] f(n).contains(x) {
            let n = choose|n: EntityId| list.contains(n) && #[trigger] f(n).contains(x);
            let k = choose|k: int| 0 <= k < list.len() && list[k] == n;
            if k < rest.len() {
                assert(rest[k] == n);
                assert(f(n).contains(x));
            }
        }
    }
}

/// What is gathered from two lists is what is gathered from the first and then
/// from the second.
pub proof fn lemma_gathered_join<T>(
    a: Seq<EntityId>,
    b: Seq<EntityId>,
    f: spec_fn(EntityId) -> Seq<T>,
)
    ensures
        paths::gathered(a + b, f) == paths::gathered(a, f) + paths::gathered(b, f),
    decreases b.len(),
{
    if b.len() == 0 {
        assert(a + b =~= a);
        assert(paths::gathered(b, f) =~= seq![]);
        assert(paths::gathered(a, f) + paths::gathered(b, f) =~= paths::gathered(a, f));
    } else {
        lemma_gathered_join(a, b.drop_last(), f);
        assert((a + b).drop_last() =~= a + b.drop_last());
        assert((a + b).last() == b.last());
        assert(paths::gathered(a + b, f) =~= paths::gathered(a, f) + paths::gathered(b, f));
    }
}

/// The distinct elements of a list come in the order of the list: those of a
/// beginning are a beginning of them.
pub proof fn lemma_distinct_prefix(
    a: Seq<EntityId>,
    b: Seq<EntityId>,
    test: spec_fn(EntityId) -> bool,
)
    ensures
        paths::distinct(a, test).is_prefix_of(paths::distinct(a + b, test)),
    decreases b.len(),
{
    if b.len() == 0 {
        assert(a + b =~= a);
    } else {
        lemma_distinct_prefix(a, b.drop_last(), test);
        assert((a + b).drop_last() =~= a + b.drop_last());
    }
}

/// What passes a test from two lists is what passes from the first and then what
/// passes from the second.
pub proof fn lemma_passing_join(
    a: Seq<EntityId>,
    b: Seq<EntityId>,
    test: spec_fn(EntityId) -> bool,
)
    ensures
        paths::passing(a + b, test) == paths::passing(a, test) + paths::passing(b, test),
    decreases b.len(),
{
    if b.len() == 0 {
        assert(a + b =~= a);
        assert(paths::passing(b, test) =~= seq![]);
        assert(paths::passing(a, test) + paths::passing(b, test) =~= paths::passing(a, test));
    } else {
        lemma_passing_join(a, b.drop_last(), test);
        assert((a + b).drop_last() =~= a + b.drop_last());
        assert((a + b).last() == b.last());
        assert(paths::passing(a + b, test) =~= paths::passing(a, test) + paths::passing(b, test));
    }
}

// ---------------------------------------------------------------------------
// Texts that a path leads to
// ---------------------------------------------------------------------------

/// Whether a statement links an entity to another one under a name.
pub open spec fn is_linked(m: ModelView, a: EntityId, name: Seq<char>, b: EntityId) -> bool {
    m.resolve(name) is Some && m.has(a, m.resolve(name)->0, ValueView::Entity(b))
}

/// Whether a statement gives an entity a text under a name.
pub open spec fn has_named_text(m: ModelView, a: EntityId, name: Seq<char>, t: Seq<char>) -> bool {
    m.resolve(name) is Some && m.has(a, m.resolve(name)->0, ValueView::Literal(t))
}

/// Whether a statement gives an entity a text.
pub open spec fn has_text(m: ModelView, a: EntityId, t: Seq<char>) -> bool {
    exists|p: EntityId| #[trigger] m.has(a, p, ValueView::Literal(t))
}

/// Whether a step names a predicate under which an entity is linked to another.
pub open spec fn goes(m: ModelView, step: QueryStep, a: EntityId, b: EntityId) -> bool {
    step.node_test is Some && is_linked(m, a, step.node_test->0.text(), b)
}

/// Whether the entities of a chain are linked one to the next, step by step.
pub open spec fn is_chain(m: ModelView, chain: Seq<EntityId>, steps: Seq<QueryStep>) -> bool {
    &&& chain.len() == steps.len() + 1
    &&& forall|i: int|
        0 <= i < steps.len() ==> goes(m, #[trigger] steps[i], chain[i], chain[i + 1])
}

/// Whether a chain leads from an entity to another one.
pub open spec fn is_chain_between(
    m: ModelView,
    from: EntityId,
    to: EntityId,
    steps: Seq<QueryStep>,
    chain: Seq<EntityId>,
) -> bool {
    is_chain(m, chain, steps) && chain[0] == from && chain.last() == to
}

/// Whether the links that the steps name lead from an entity to another one.
pub open spec fn leads(m: ModelView, from: EntityId, to: EntityId, steps: Seq<QueryStep>) -> bool {
    exists|chain: Seq<EntityId>| #[trigger] is_chain_between(m, from, to, steps, chain)
}

/// A step along a predicate leads to what is linked under it.
pub proof fn lemma_step_links(m: ModelView, step: QueryStep, a: EntityId, b: EntityId)
    ensures
        paths::step_links(m, step.node_test, a).contains(b) <==> goes(m, step, a, b),
{
    if let Some(name) = step.node_test {
        if let Some(p) = m.resolve(name.text()) {
            graph::lemma_objects(m, a, p, ValueView::Entity(b));
            graph::lemma_entities(view::objects(m.facts, a, p), b);
        }
    }
}

/// Steps along predicates lead to an entity exactly where a chain of links does.
pub proof fn lemma_followed(m: ModelView, from: EntityId, steps: Seq<QueryStep>, to: EntityId)
    ensures
        paths::followed(m, seq![from], steps).contains(to) <==> leads(m, from, to, steps),
    decreases steps.len(),
{
    let start = seq![from];
    if steps.len() == 0 {
        if start.contains(to) {
            assert(is_chain_between(m, from, to, steps, seq![to]));
        }
        if leads(m, from, to, steps) {
            let chain = choose|chain: Seq<EntityId>| #[trigger]
                is_chain_between(m, from, to, steps, chain);
            assert(start[0] == to);
        }
    } else {
        let rest = steps.drop_last();
        let step = steps.last();
        let f = |n: EntityId| paths::step_links(m, step.node_test, n);
        lemma_gathered(paths::followed(m, start, rest), f, to);
        if paths::followed(m, start, steps).contains(to) {
            let n = choose|n: EntityId|
                paths::followed(m, start, rest).contains(n) && #[trigger] f(n).contains(to);
            lemma_followed(m, from, rest, n);
            lemma_step_links(m, step, n, to);
            let chain = choose|chain: Seq<EntityId>| #[trigger]
                is_chain_between(m, from, n, rest, chain);
            let longer = chain.push(to);
            assert forall|i: int| 0 <= i < steps.len() implies goes(
                m,
                #[trigger] steps[i],
                longer[i],
                longer[i + 1],
            ) by {
                if i < rest.len() {
                    assert(rest[i] == steps[i]);
                }
            }
            assert(is_chain_between(m, from, to, steps, longer));
        }
        if leads(m, from, to, steps) {
            let chain = choose|chain: Seq<EntityId>| #[trigger]
                is_chain_between(m, from, to, steps, chain);
            let shorter = chain.drop_last();
            let n = shorter.last();
            assert forall|i: int| 0 <= i < rest.len() implies goes(
                m,
                #[trigger] rest[i],
                shorter[i],
                shorter[i + 1],
            ) by {
                assert(rest[i] == steps[i]);
            }
            assert(is_chain_between(m, from, n, rest, shorter));
            lemma_followed(m, from, rest, n);
            assert(goes(m, steps[steps.len() - 1], n, to));
            lemma_step_links(m, step, n, to);
            assert(f(n).contains(to));
        }
    }
}

/// Whether a chain of links leads to an entity with a text.
pub open spec fn leads_to_text(m: ModelView, from: EntityId, steps: Seq<QueryStep>, t: Seq<char>) -> bool {
    exists|e: EntityId| #[trigger] leads(m, from, e, steps) && has_text(m, e, t)
}

/// Whether a path shows a text: its links lead to an entity that has it; or they
/// lead to no text at all, the path is one name, and the start has the text under
/// that name.
pub open spec fn shows(m: ModelView, from: EntityId, steps: Seq<QueryStep>, t: Seq<char>) -> bool {
    ||| leads_to_text(m, from, steps, t)
    ||| {
        &&& steps.len() == 1
        &&& steps[0].node_test is Some
        &&& forall|other: Seq<char>| !#[trigger] leads_to_text(m, from, steps, other)
        &&& has_named_text(m, from, steps[0].node_test->0.text(), t)
    }
}

/// A path leads to the texts that it shows, and to no others.
pub proof fn lemma_path_shows(m: ModelView, from: EntityId, steps: Seq<QueryStep>, t: Seq<char>)
    ensures
        paths::path_literals(m, from, steps).contains(t) <==> shows(m, from, steps, t),
{
    let ends = paths::followed(m, seq![from], steps);
    let f = |n: EntityId| view::own_literals(m.facts, n);
    let found = paths::gathered(ends, f);
    assert forall|s: Seq<char>| found.contains(s) <==> #[trigger] leads_to_text(m, from, steps, s) by {
        lemma_gathered(ends, f, s);
        if found.contains(s) {
            let n = choose|n: EntityId| ends.contains(n) && #[trigger] f(n).contains(s);
            lemma_followed(m, from, steps, n);
            graph::lemma_own_literals(m, n, s);
        }
        if leads_to_text(m, from, steps, s) {
            let e = choose|e: EntityId| #[trigger] leads(m, from, e, steps) && has_text(m, e, s);
            lemma_followed(m, from, steps, e);
            graph::lemma_own_literals(m, e, s);
            assert(f(e).contains(s));
        }
    }
    if found.len() == 0 {
        assert forall|other: Seq<char>| !#[trigger] leads_to_text(m, from, steps, other) by {
            assert(!found.contains(other));
        }
        if steps.len() == 1 {
            if let Some(name) = steps[0].node_test {
                graph::lemma_literals(m.named_objects(from, name.text()), t);
                if let Some(p) = m.resolve(name.text()) {
                    graph::lemma_objects(m, from, p, ValueView::Literal(t));
                }
            }
        }
    } else {
        assert(found.contains(found[0]));
        assert(leads_to_text(m, from, steps, found[0]));
    }
}

// ---------------------------------------------------------------------------
// Conditions
// ---------------------------------------------------------------------------

/// A condition holds exactly where its path shows the constant, one of the
/// constants, or some text.
pub proof fn lemma_condition_by_texts(m: ModelView, node: EntityId, condition: QueryPredicate)
    ensures
        match condition {
            QueryPredicate::Eq(path, literal) => paths::condition_holds(m, node, condition)
                <==> shows(m, node, path.steps@, literal.text()),
            QueryPredicate::In(path, literals) => paths::condition_holds(m, node, condition)
                <==> exists|i: int|
                0 <= i < literals@.len() && shows(
                    m,
                    node,
                    path.steps@,
                    (#[trigger] literals@[i]).text(),
                ),
            QueryPredicate::Exists(path) => paths::condition_holds(m, node, condition)
                <==> exists|t: Seq<char>| #[trigger] shows(m, node, path.steps@, t),
        },
{
    match condition {
        QueryPredicate::Eq(path, literal) => {
            lemma_path_shows(m, node, path.steps@, literal.text());
        },
        QueryPredicate::In(path, literals) => {
            assert forall|i: int| 0 <= i < literals@.len() implies (paths::path_literals(
                m,
                node,
                path.steps@,
            ).contains((#[trigger] literals@[i]).text()) <==> shows(
                m,
                node,
                path.steps@,
                literals@[i].text(),
            )) by {
                lemma_path_shows(m, node, path.steps@, literals@[i].text());
            }
        },
        QueryPredicate::Exists(path) => {
            let found = paths::path_literals(m, node, path.steps@);
            if found.len() > 0 {
                assert(found.contains(found[0]));
                lemma_path_shows(m, node, path.steps@, found[0]);
                assert(shows(m, node, path.steps@, found[0]));
            }
            if exists|t: Seq<char>| #[trigger] shows(m, node, path.steps@, t) {
                let t = choose|t: Seq<char>| #[trigger] shows(m, node, path.steps@, t);
                lemma_path_shows(m, node, path.steps@, t);
            }
        },
    }
}

/// A node meets conditions exactly where it meets each of them, at every position;
/// a single one where that one holds, and none always.
pub proof fn lemma_conditions_each(m: ModelView, node: EntityId, conditions: Seq<QueryPredicate>)
    ensures
        paths::conditions_hold(m, node, conditions) <==> forall|i: int|
            0 <= i < conditions.len() ==> paths::conditions_hold(
                m,
                node,
                seq![#[trigger] conditions[i]],
            ),
        forall|c: QueryPredicate|
            paths::conditions_hold(m, node, #[trigger] seq![c]) <==> paths::condition_holds(
                m,
                node,
                c,
            ),
        paths::conditions_hold(m, node, seq![]),
{
    assert forall|c: QueryPredicate|
        paths::conditions_hold(m, node, #[trigger] seq![c]) <==> paths::condition_holds(
            m,
            node,
            c,
        ) by {
        let one = seq![c];
        assert(one[0] == c);
    }
}

/// Conditions in two parts hold where both parts do, whatever the order of the
/// parts.
pub proof fn lemma_conditions_join(
    m: ModelView,
    node: EntityId,
    a: Seq<QueryPredicate>,
    b: Seq<QueryPredicate>,
)
    ensures
        paths::conditions_hold(m, node, a + b) <==> paths::conditions_hold(m, node, a)
            && paths::conditions_hold(m, node, b),
        paths::conditions_hold(m, node, a + b) <==> paths::conditions_hold(m, node, b + a),
{
    let ab = a + b;
    let ba = b + a;
    if paths::conditions_hold(m, node, ab) {
        assert forall|i: int| 0 <= i < a.len() implies paths::condition_holds(
            m,
            node,
            #[trigger] a[i],
        ) by {
            assert(ab[i] == a[i]);
        }
        assert forall|i: int| 0 <= i < b.len() implies paths::condition_holds(
            m,
            node,
            #[trigger] b[i],
        ) by {
            assert(ab[a.len() + i] == b[i]);
        }
    }
    if paths::conditions_hold(m, node, ba) {
        assert forall|i: int| 0 <= i < a.len() implies paths::condition_holds(
            m,
            node,
            #[trigger] a[i],
        ) by {
            assert(ba[b.len() + i] == a[i]);
        }
        assert forall|i: int| 0 <= i < b.len() implies paths::condition_holds(
            m,
            node,
            #[trigger] b[i],
        ) by {
            assert(ba[i] == b[i]);
        }
    }
}

/// What a query gives meets the condition at every position of its last step.
pub proof fn lemma_result_meets_each(m: ModelView, steps: Seq<QueryStep>, id: EntityId, i: int)
    requires
        steps.len() > 0,
        paths::query_result(m, steps).contains(id),
        0 <= i < steps.last().predicates@.len(),
    ensures
        paths::condition_holds(m, id, steps.last().predicates@[i]),
{
    traversal::lemma_query_result_meets_conditions(m, steps, id);
}

/// Conditions of two steps taken together choose what both steps choose, from the
/// whole graph and from some nodes.
pub proof fn lemma_conditions_intersect(
    m: ModelView,
    nodes: Seq<EntityId>,
    both: QueryStep,
    first: QueryStep,
    second: QueryStep,
    id: EntityId,
)
    requires
        both.axis == first.axis,
        both.axis == second.axis,
        both.node_test == first.node_test,
        both.node_test == second.node_test,
        both.predicates@ == first.predicates@ + second.predicates@ || both.predicates@
            == second.predicates@ + first.predicates@,
    ensures
        paths::query_result(m, seq![both]).contains(id) <==> paths::query_result(
            m,
            seq![first],
        ).contains(id) && paths::query_result(m, seq![second]).contains(id),
        paths::stepped(m, nodes, both).contains(id) <==> paths::stepped(m, nodes, first).contains(
            id,
        ) && paths::stepped(m, nodes, second).contains(id),
{
    lemma_conditions_join(m, id, first.predicates@, second.predicates@);
    traversal::lemma_single_step_scans_all(m, both, id);
    traversal::lemma_single_step_scans_all(m, first, id);
    traversal::lemma_single_step_scans_all(m, second, id);
    lemma_stepped(m, nodes, both, id);
    lemma_stepped(m, nodes, first, id);
    lemma_stepped(m, nodes, second, id);
    assert forall|n: EntityId| #![trigger nodes.contains(n)] paths::reached(m, both, n).contains(id)
        <==> paths::reached(m, first, n).contains(id) by {
        lemma_reached(m, both, n, id);
        lemma_reached(m, first, n, id);
    }
    assert forall|n: EntityId| #![trigger nodes.contains(n)] paths::reached(m, both, n).contains(id)
        <==> paths::reached(m, second, n).contains(id) by {
        lemma_reached(m, both, n, id);
        lemma_reached(m, second, n, id);
    }
    if paths::stepped(m, nodes, first).contains(id) {
        let n = choose|n: EntityId|
            nodes.contains(n) && #[trigger] paths::reached(m, first, n).contains(id);
        assert(nodes.contains(n) && paths::reached(m, both, n).contains(id));
    }
    if paths::stepped(m, nodes, both).contains(id) {
        let n = choose|n: EntityId|
            nodes.contains(n) && #[trigger] paths::reached(m, both, n).contains(id);
        assert(nodes.contains(n) && paths::reached(m, first, n).contains(id));
        assert(nodes.contains(n) && paths::reached(m, second, n).contains(id));
    }
}

// ---------------------------------------------------------------------------
// Steps
// ---------------------------------------------------------------------------

/// Whether a statement says that a node contains another one.
pub open spec fn contains_node(m: ModelView, node: EntityId, child: EntityId) -> bool {
    is_linked(m, node, "wa2:contains"@, child)
}

/// Whether a statement says that an entity is of the type with a name.
pub open spec fn is_of_type(m: ModelView, id: EntityId, name: Seq<char>) -> bool {
    m.resolve(name) is Some && is_linked_to(m, id, "wa2:type"@, m.resolve(name))
}

/// Whether a statement links an entity to what a name denotes.
pub open spec fn is_linked_to(
    m: ModelView,
    id: EntityId,
    predicate: Seq<char>,
    target: Option<EntityId>,
) -> bool {
    target is Some && is_linked(m, id, predicate, target->0)
}

/// Whether an entity lies in the direction of a step: it is contained in the node,
/// or, for the other directions, stands below it at any depth.
pub open spec fn lies_along(m: ModelView, axis: Axis, node: EntityId, x: EntityId) -> bool {
    if axis == Axis::Child {
        contains_node(m, node, x)
    } else {
        traversal::is_below(m, node, x)
    }
}

/// A step reaches an entity from a node exactly where the entity lies in its
/// direction and is of the type that the step names, if any; or where, for a step
/// to children, the node is linked to the entity under the name.
pub proof fn lemma_reached(m: ModelView, step: QueryStep, node: EntityId, x: EntityId)
    ensures
        paths::reached(m, step, node).contains(x) <==> match step.node_test {
            None => lies_along(m, step.axis, node, x),
            Some(name) => (lies_along(m, step.axis, node, x) && is_of_type(m, x, name.text())) || (
            step.axis == Axis::Child && is_linked(m, node, name.text(), x)),
        },
{
    graph::lemma_children(m, node, x);
    traversal::lemma_descendants_are_all_below(m, node);
    let around = paths::on_axis(m, step.axis, node);
    assert(around.contains(x) <==> lies_along(m, step.axis, node, x));
    if let Some(name) = step.node_test {
        if let Some(named) = m.resolve(name.text()) {
            let test = |id: EntityId| m.has_type(id, named);
            let typed = paths::passing(around, test);
            traversal::lemma_passing(around, test);
            let linked = view::entities_of(view::objects(m.facts, node, named));
            graph::lemma_objects(m, node, named, ValueView::Entity(x));
            graph::lemma_entities(view::objects(m.facts, node, named), x);
            graph::lemma_types(m, x, named);
            let all = typed + linked;
            if typed.contains(x) {
                let i = choose|i: int| 0 <= i < typed.len() && typed[i] == x;
                assert(all[i] == x);
            }
            if linked.contains(x) {
                let i = choose|i: int| 0 <= i < linked.len() && linked[i] == x;
                assert(all[typed.len() + i] == x);
            }
            if all.contains(x) {
                let i = choose|i: int| 0 <= i < all.len() && all[i] == x;
                if i < typed.len() {
                    assert(typed[i] == x);
                } else {
                    assert(linked[i - typed.len()] == x);
                }
            }
        }
    }
}

/// A step leads from some nodes to what it reaches from one of them and what meets
/// its conditions, each once.
pub proof fn lemma_stepped(m: ModelView, nodes: Seq<EntityId>, step: QueryStep, x: EntityId)
    ensures
        paths::stepped(m, nodes, step).contains(x) <==> (exists|n: EntityId|
            nodes.contains(n) && #[trigger] paths::reached(m, step, n).contains(x))
            && paths::conditions_hold(m, x, step.predicates@),
        paths::stepped(m, nodes, step).no_duplicates(),
{
    let f = |n: EntityId| paths::reached(m, step, n);
    let test = |id: EntityId| paths::conditions_hold(m, id, step.predicates@);
    let all = paths::gathered(nodes, f);
    lemma_gathered(nodes, f, x);
    traversal::lemma_distinct(all, test);
    if all.contains(x) {
        let n = choose|n: EntityId| nodes.contains(n) && #[trigger] f(n).contains(x);
        assert(paths::reached(m, step, n).contains(x));
    }
    if exists|n: EntityId| nodes.contains(n) && #[trigger] paths::reached(m, step, n).contains(x) {
        let n = choose|n: EntityId|
            nodes.contains(n) && #[trigger] paths::reached(m, step, n).contains(x);
        assert(f(n).contains(x));
    }
}

/// A step takes its nodes in order: what it gives for the first of them comes
/// first.
pub proof fn lemma_stepped_in_order(
    m: ModelView,
    a: Seq<EntityId>,
    b: Seq<EntityId>,
    step: QueryStep,
)
    ensures
        paths::stepped(m, a, step).is_prefix_of(paths::stepped(m, a + b, step)),
{
    let f = |n: EntityId| paths::reached(m, step, n);
    let test = |id: EntityId| paths::conditions_hold(m, id, step.predicates@);
    lemma_gathered_join(a, b, f);
    lemma_distinct_prefix(paths::gathered(a, f), paths::gathered(b, f), test);
}

/// Steps one after another lead where the later ones lead from what the earlier
/// ones gave; no step leads nowhere else.
pub proof fn lemma_steps_compose(
    m: ModelView,
    nodes: Seq<EntityId>,
    a: Seq<QueryStep>,
    b: Seq<QueryStep>,
)
    ensures
        paths::stepped_all(m, nodes, a + b) == paths::stepped_all(
            m,
            paths::stepped_all(m, nodes, a),
            b,
        ),
        paths::stepped_all(m, nodes, seq![]) == nodes,
    decreases b.len(),
{
    if b.len() == 0 {
        assert(a + b =~= a);
    } else {
        lemma_steps_compose(m, nodes, a, b.drop_last());
        assert((a + b).drop_last() =~= a + b.drop_last());
        assert((a + b).last() == b.last());
    }
}

/// A single step from some nodes is that step.
pub proof fn lemma_one_step(m: ModelView, nodes: Seq<EntityId>, step: QueryStep)
    ensures
        paths::stepped_all(m, nodes, seq![step]) == paths::stepped(m, nodes, step),
{
    let steps = seq![step];
    assert(steps.drop_last() =~= seq![]);
    assert(paths::stepped_all(m, nodes, steps.drop_last()) =~= nodes);
}

/// A longer query leads where its further steps lead from the result of the
/// shorter one; a query without steps gives nothing.
pub proof fn lemma_query_composes(m: ModelView, a: Seq<QueryStep>, b: Seq<QueryStep>)
    requires
        a.len() > 0,
    ensures
        paths::query_result(m, a + b) == paths::stepped_all(m, paths::query_result(m, a), b),
        paths::query_result(m, seq![]).len() == 0,
{
    assert((a + b)[0] == a[0]);
    assert((a + b).skip(1) =~= a.skip(1) + b);
    lemma_steps_compose(m, paths::scanned(m, a[0]), a.skip(1), b);
}

/// A query of one step gives the entities of the graph that are of the type that
/// the step names, or, where the name denotes no type, the entity that it denotes,
/// and that meet its conditions, in the order of their identifiers.
pub proof fn lemma_scan(m: ModelView, step: QueryStep, id: EntityId)
    requires
        m.ids_fit(),
    ensures
        paths::query_result(m, seq![step]).contains(id) <==> {
            &&& id.0 < m.names.len()
            &&& paths::conditions_hold(m, id, step.predicates@)
            &&& match step.node_test {
                None => true,
                Some(name) => m.resolve(name.text()) is Some && if is_of_type(
                    m,
                    m.resolve(name.text())->0,
                    "wa2:Type"@,
                ) {
                    is_of_type(m, id, name.text())
                } else {
                    m.resolve(name.text()) == Some(id)
                },
            }
        },
        forall|i: int, j: int|
            #![trigger paths::query_result(m, seq![step])[i], paths::query_result(m, seq![step])[j]]
            0 <= i < j < paths::query_result(m, seq![step]).len() ==> paths::query_result(
                m,
                seq![step],
            )[i].0 < paths::query_result(m, seq![step])[j].0,
{
    traversal::lemma_single_step_scans_all(m, step, id);
    let ids = paths::all_ids(m);
    if id.0 < m.names.len() {
        graph::lemma_id_at(id.0 as int);
        assert(ids[id.0 as int] == id);
    }
    if ids.contains(id) {
        let i = choose|i: int| 0 <= i < ids.len() && ids[i] == id;
        graph::lemma_id_at(i);
    }
    if let Some(name) = step.node_test {
        if let Some(named) = m.resolve(name.text()) {
            graph::lemma_types(m, id, named);
            if let Some(t) = m.resolve("wa2:Type"@) {
                graph::lemma_types(m, named, t);
            }
        }
    }
    assert(seq![step].skip(1) =~= seq![]);
    let test = |id: EntityId| paths::scan_test(m, step, id);
    assert forall|i: int, j: int| 0 <= i < j < ids.len() implies (#[trigger] ids[i]).0 < (
    #[trigger] ids[j]).0 by {
        graph::lemma_id_at(i);
        graph::lemma_id_at(j);
    }
    lemma_distinct_increases(ids, test);
}

/// The distinct elements of an increasing list increase.
pub proof fn lemma_distinct_increases(list: Seq<EntityId>, test: spec_fn(EntityId) -> bool)
    requires
        forall|i: int, j: int|
            0 <= i < j < list.len() ==> (#[trigger] list[i]).0 < (#[trigger] list[j]).0,
    ensures
        forall|i: int, j: int|
            0 <= i < j < paths::distinct(list, test).len() ==> (#[trigger] paths::distinct(
                list,
                test,
            )[i]).0 < (#[trigger] paths::distinct(list, test)[j]).0,
    decreases list.len(),
{
    if list.len() > 0 {
        let rest = list.drop_last();
        assert forall|i: int, j: int| 0 <= i < j < rest.len() implies (#[trigger] rest[i]).0 < (
        #[trigger] rest[j]).0 by {
            assert(rest[i] == list[i] && rest[j] == list[j]);
        }
        lemma_distinct_increases(rest, test);
        traversal::lemma_distinct(rest, test);
        let before = paths::distinct(rest, test);
        let last = list.last();
        assert forall|i: int| 0 <= i < before.len() implies (#[trigger] before[i]).0 < last.0 by {
            assert(before.contains(before[i]));
            let k = choose|k: int| 0 <= k < rest.len() && rest[k] == before[i];
            assert(list[k].0 < list[list.len() - 1].0);
        }
    }
}

// ---------------------------------------------------------------------------
// Queries in expressions
// ---------------------------------------------------------------------------

/// A query that begins with a variable gives, for that step alone, the nodes of
/// the variable that meet the conditions of the step, and goes on from there.
pub proof fn lemma_query_from_variable(
    m: ModelView,
    steps: Seq<QueryStep>,
    more: Seq<QueryStep>,
    env: EnvView,
    id: EntityId,
)
    requires
        steps.len() == 1,
        steps[0].node_test is Some,
        steps[0].node_test->0.namespace is None,
        semantics::lookup(env, steps[0].node_test->0.name@) is Some,
        semantics::nodes_of(semantics::lookup(env, steps[0].node_test->0.name@)->0).len() > 0,
    ensures
        semantics::query_value(m, steps, env).contains(id) <==> semantics::nodes_of(
            semantics::lookup(env, steps[0].node_test->0.name@)->0,
        ).contains(id) && paths::conditions_hold(m, id, steps[0].predicates@),
        semantics::query_value(m, steps + more, env) == paths::stepped_all(
            m,
            semantics::query_value(m, steps, env),
            more,
        ),
{
    let starts = semantics::start_nodes(steps, env);
    let test = |id: EntityId| paths::conditions_hold(m, id, steps[0].predicates@);
    traversal::lemma_passing(starts, test);
    assert(steps.skip(1) =~= seq![]);
    assert((steps + more)[0] == steps[0]);
    assert((steps + more).skip(1) =~= more);
    assert(semantics::start_nodes(steps + more, env) == starts);
}

/// A query that begins with no variable is a query of the whole graph.
pub proof fn lemma_query_of_graph(m: ModelView, steps: Seq<QueryStep>, env: EnvView)
    requires
        steps.len() > 0,
        steps[0].node_test is None || steps[0].node_test->0.namespace is Some || semantics::lookup(
            env,
            steps[0].node_test->0.name@,
        ) is None,
    ensures
        semantics::query_value(m, steps, env) == paths::query_result(m, steps),
{
}

/// The texts that a path leads to come node by node and end by end, each as often as
/// it is stated; the texts of the node itself under a single step count where no end
/// has any.
pub proof fn lemma_texts_in_order(
    m: ModelView,
    a: Seq<EntityId>,
    b: Seq<EntityId>,
    n: EntityId,
    steps: Seq<QueryStep>,
    more: Seq<QueryStep>,
)
    ensures
        paths::all_literals(m, a + b, steps) == paths::all_literals(m, a, steps)
            + paths::all_literals(m, b, steps),
        paths::all_literals(m, seq![n], steps) == paths::path_literals(m, n, steps),
        paths::followed(m, a, steps + more) == paths::followed(
            m,
            paths::followed(m, a, steps),
            more,
        ),
        ({
            let ends = paths::followed(m, seq![n], steps);
            let found = paths::gathered(ends, |e: EntityId| view::own_literals(m.facts, e));
            &&& found.len() > 0 ==> paths::path_literals(m, n, steps) == found
            &&& found.len() == 0 && steps.len() == 1 && steps[0].node_test is Some
                ==> paths::path_literals(m, n, steps) == view::literals_of(
                m.named_objects(n, steps[0].node_test->0.text()),
            )
            &&& found.len() == 0 && steps.len() != 1 ==> paths::path_literals(m, n, steps).len()
                == 0
        }),
    decreases more.len(),
{
    let f = |x: EntityId| paths::path_literals(m, x, steps);
    lemma_gathered_join(a, b, f);
    let one = seq![n];
    assert(one.drop_last() =~= seq![]);
    assert(paths::gathered(one.drop_last(), f) =~= seq![]);
    assert(paths::gathered(one, f) =~= f(n));
    if more.len() == 0 {
        assert(steps + more =~= steps);
    } else {
        lemma_texts_in_order(m, a, b, n, steps, more.drop_last());
        assert((steps + more).drop_last() =~= steps + more.drop_last());
        assert((steps + more).last() == more.last());
    }
}

} // verus!
