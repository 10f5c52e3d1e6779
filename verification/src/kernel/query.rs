//! Query execution for path expressions.

use vstd::prelude::*;

use crate::kernel::ast::{Axis, Literal, QueryPath, QueryPredicate, QueryStep};
use crate::kernel::paths::{self, Walk};
use crate::kernel::rules::RuleError;
use crate::kernel::traversal;
use crate::model::view::{self, ModelView};
use crate::model::{entity_id, EntityId, Model, StatementId, Term};
use crate::text;

verus! {

// ---------------------------------------------------------------------------
// Lists
// ---------------------------------------------------------------------------

/// Whether a list holds an entity.
pub fn holds_id(list: &Vec<EntityId>, id: EntityId) -> (r: bool)
    ensures
        r == list@.contains(id),
{
    for i in 0..list.len()
        invariant
            forall|j: int| 0 <= j < i ==> list@[j] != id,
    {
        if list[i] == id {
            return true;
        }
    }
    false
}

fn append_ids(list: &mut Vec<EntityId>, more: &Vec<EntityId>)
    ensures
        final(list)@ == old(list)@ + more@,
{
    for i in 0..more.len()
        invariant
            list@ == old(list)@ + more@.take(i as int),
    {
        list.push(more[i]);
        assert(list@ =~= old(list)@ + more@.take(i + 1));
    }
    assert(more@.take(more@.len() as int) =~= more@);
}

fn append_texts(list: &mut Vec<String>, more: Vec<String>)
    ensures
        text::views(final(list)@) == text::views(old(list)@) + text::views(more@),
{
    for i in 0..more.len()
        invariant
            text::views(list@) == text::views(old(list)@) + text::views(more@).take(i as int),
    {
        let ghost before = text::views(list@);
        list.push(more[i].clone());
        assert(text::views(list@) =~= before.push(more@[i as int]@));
        assert(text::views(list@) =~= text::views(old(list)@) + text::views(more@).take(i + 1));
    }
    assert(text::views(more@).take(more@.len() as int) =~= text::views(more@));
}

/// Whether a list of texts holds a text.
fn holds_text(list: &Vec<String>, wanted: &str) -> (r: bool)
    ensures
        r == text::views(list@).contains(wanted@),
{
    let ghost all = text::views(list@);
    for i in 0..list.len()
        invariant
            all == text::views(list@),
            forall|j: int| 0 <= j < i ==> all[j] != wanted@,
    {
        assert(all[i as int] == list@[i as int]@);
        if text::same_text(list[i].as_str(), wanted) {
            return true;
        }
    }
    false
}

// ---------------------------------------------------------------------------
// The engine
// ---------------------------------------------------------------------------

/// Answers queries on a model. It never changes the model.
#[derive(Debug, Clone, Copy)]
pub struct QueryEngine;

impl QueryEngine {
    pub fn new() -> (r: Self)
        ensures
            r == QueryEngine,
    {
        QueryEngine
    }

    /// The result of a query.
    pub fn execute(&self, model: &Model, path: &QueryPath) -> (r: Result<Vec<EntityId>, RuleError>)
        ensures
            r is Ok,
            r->Ok_0@ == paths::query_result(model@, path.steps@),
    {
        if path.steps.len() == 0 {
            return Ok(Vec::new());
        }
        let current = self.apply_filters(model, &path.steps[0]);
        self.execute_from(model, &current, path, 1)
    }

    /// The nodes that the steps of a path, but for the first `skip`, lead to
    /// from some nodes.
    pub fn execute_from(&self, model: &Model, start: &Vec<EntityId>, path: &QueryPath, skip: usize) -> (r:
        Result<Vec<EntityId>, RuleError>)
        requires
            skip <= path.steps.len(),
        ensures
            r is Ok,
            r->Ok_0@ == paths::stepped_all(model@, start@, path.steps@.skip(skip as int)),
    {
        let mut current: Vec<EntityId> = Vec::new();
        append_ids(&mut current, start);
        let ghost steps = path.steps@.skip(skip as int);
        assert(current@ =~= start@);
        for i in skip..path.steps.len()
            invariant
                skip <= path.steps.len(),
                steps == path.steps@.skip(skip as int),
                current@ == paths::stepped_all(model@, start@, steps.take(i - skip)),
        {
            assert(steps.take(i + 1 - skip).drop_last() =~= steps.take(i - skip));
            assert(steps.take(i + 1 - skip).last() == path.steps@[i as int]);
            current = self.execute_step(model, &current, &path.steps[i]);
        }
        assert(steps.take(steps.len() as int) =~= steps);
        Ok(current)
    }

    /// Whether an entity passes the node test of a first step.
    fn scan_name(&self, model: &Model, candidate: EntityId, step: &QueryStep) -> (r: bool)
        ensures
            r == paths::answers_to(model@, step.node_test, candidate),
    {
        match &step.node_test {
            Some(name) => {
                let qname = name.to_text();
                match model.resolve(qname.as_str()) {
                    Some(resolved) => {
                        let is_type: bool = match model.resolve("wa2:Type") {
                            Some(t) => model.has_type(resolved, t),
                            None => false,
                        };
                        if is_type {
                            model.has_type(candidate, resolved)
                        } else {
                            candidate == resolved
                        }
                    },
                    None => false,
                }
            },
            None => true,
        }
    }

    /// The entities that pass a first step.
    fn apply_filters(&self, model: &Model, step: &QueryStep) -> (r: Vec<EntityId>)
        ensures
            r@ == paths::scanned(model@, *step),
    {
        let mut results: Vec<EntityId> = Vec::new();
        let ghost all = paths::all_ids(model@);
        let ghost test = |id: EntityId| paths::scan_test(model@, *step, id);
        let count: usize = model.entity_count();
        for i in 0..count
            invariant
                all == paths::all_ids(model@),
                count == model@.names.len(),
                test == (|id: EntityId| paths::scan_test(model@, *step, id)),
                results@ == paths::distinct(all.take(i as int), test),
        {
            let candidate = entity_id(i);
            proof {
                assert(all.take(i + 1).drop_last() =~= all.take(i as int));
                assert(all.take(i + 1).last() == candidate);
            }
            if self.scan_name(model, candidate, step) && self.check_predicates(
                model,
                candidate,
                &step.predicates,
            ) {
                if !holds_id(&results, candidate) {
                    results.push(candidate);
                }
            }
        }
        assert(all.take(all.len() as int) =~= all);
        results
    }

    /// The nodes that a step reaches from a node, its conditions left aside.
    fn reach(&self, model: &Model, node: EntityId, step: &QueryStep) -> (r: Vec<EntityId>)
        ensures
            r@ == paths::reached(model@, *step, node),
    {
        let around: Vec<EntityId> = match step.axis {
            Axis::Child => model.children(node),
            Axis::Descendant | Axis::DescendantOrSelf => self.descendants(model, node),
        };
        match &step.node_test {
            Some(name) => {
                let qname = name.to_text();
                match model.resolve(qname.as_str()) {
                    Some(named) => {
                        let mut out: Vec<EntityId> = Vec::new();
                        let ghost test = |id: EntityId| model@.has_type(id, named);
                        for i in 0..around.len()
                            invariant
                                test == (|id: EntityId| model@.has_type(id, named)),
                                out@ == paths::passing(around@.take(i as int), test),
                        {
                            assert(around@.take(i + 1).drop_last() =~= around@.take(i as int));
                            if model.has_type(around[i], named) {
                                out.push(around[i]);
                            }
                        }
                        assert(around@.take(around@.len() as int) =~= around@);
                        if step.axis == Axis::Child {
                            append_ids(&mut out, &model.linked_entities(node, named));
                        }
                        out
                    },
                    None => Vec::new(),
                }
            },
            None => around,
        }
    }

    /// The nodes that a step leads to from some nodes.
    fn execute_step(&self, model: &Model, input: &Vec<EntityId>, step: &QueryStep) -> (r: Vec<EntityId>)
        ensures
            r@ == paths::stepped(model@, input@, *step),
    {
        let mut candidates: Vec<EntityId> = Vec::new();
        let ghost reach = |n: EntityId| paths::reached(model@, *step, n);
        for i in 0..input.len()
            invariant
                reach == (|n: EntityId| paths::reached(model@, *step, n)),
                candidates@ == paths::gathered(input@.take(i as int), reach),
        {
            assert(input@.take(i + 1).drop_last() =~= input@.take(i as int));
            append_ids(&mut candidates, &self.reach(model, input[i], step));
        }
        assert(input@.take(input@.len() as int) =~= input@);
        let mut results: Vec<EntityId> = Vec::new();
        let ghost test = |id: EntityId| paths::conditions_hold(model@, id, step.predicates@);
        for i in 0..candidates.len()
            invariant
                test == (|id: EntityId| paths::conditions_hold(model@, id, step.predicates@)),
                results@ == paths::distinct(candidates@.take(i as int), test),
        {
            assert(candidates@.take(i + 1).drop_last() =~= candidates@.take(i as int));
            if self.check_predicates(model, candidates[i], &step.predicates) {
                if !holds_id(&results, candidates[i]) {
                    results.push(candidates[i]);
                }
            }
        }
        assert(candidates@.take(candidates@.len() as int) =~= candidates@);
        results
    }

    /// The nodes below a node, in the order in which they are found.
    pub fn descendants(&self, model: &Model, node: EntityId) -> (r: Vec<EntityId>)
        ensures
            r@ == paths::descendants(model@, node),
    {
        let mut result: Vec<EntityId> = Vec::new();
        let mut stack: Vec<EntityId> = vec![node];
        let ghost mut fuel: nat = model@.facts.len() + 1;
        let ghost mut opened: nat = 0;
        assert(stack@ =~= seq![node]);
        assert(result@ =~= seq![]);
        loop
            invariant
                paths::walked(model@, Walk { found: result@, open: stack@ }, fuel)
                    == paths::descendants(model@, node),
                fuel + opened == model@.facts.len() + 1,
                stack@.len() + opened == result@.len() + 1,
                result@.no_duplicates(),
                forall|i: int|
                    0 <= i < result@.len() ==> traversal::object_set(model@.facts).contains(
                        #[trigger] result@[i],
                    ),
            ensures
                result@ == paths::descendants(model@, node),
            decreases fuel,
        {
            proof {
                traversal::lemma_found_fits(model@, result@);
            }
            let ghost before = Walk { found: result@, open: stack@ };
            match stack.pop() {
                None => {
                    break;
                },
                Some(current) => {
                    let children = model.children(current);
                    let ghost rest = Walk { found: result@, open: stack@ };
                    proof {
                        traversal::lemma_children_are_objects(model@, current);
                        assert(rest == Walk { open: before.open.drop_last(), ..before });
                    }
                    for i in 0..children.len()
                        invariant
                            rest.open.len() + opened + 1 == rest.found.len() + 1,
                            children@ == model@.children(current),
                            forall|k: int|
                                0 <= k < children@.len() ==> traversal::object_set(model@.facts).contains(
                                    #[trigger] children@[k],
                                ),
                            (Walk { found: result@, open: stack@ }) == paths::met(
                                rest,
                                children@.take(i as int),
                            ),
                            stack@.len() + opened + 1 == result@.len() + 1,
                            result@.no_duplicates(),
                            forall|k: int|
                                0 <= k < result@.len() ==> traversal::object_set(model@.facts).contains(
                                    #[trigger] result@[k],
                                ),
                    {
                        let child = children[i];
                        assert(children@.take(i + 1).drop_last() =~= children@.take(i as int));
                        assert(children@.take(i + 1).last() == child);
                        if !holds_id(&result, child) {
                            result.push(child);
                            stack.push(child);
                        }
                    }
                    proof {
                        assert(children@.take(children@.len() as int) =~= children@);
                        fuel = (fuel - 1) as nat;
                        opened = opened + 1;
                    }
                },
            }
        }
        result
    }

    /// Whether a node meets all conditions.
    pub fn check_predicates(&self, model: &Model, node: EntityId, predicates: &Vec<QueryPredicate>) -> (r:
        bool)
        ensures
            r == paths::conditions_hold(model@, node, predicates@),
    {
        for i in 0..predicates.len()
            invariant
                forall|j: int|
                    0 <= j < i ==> paths::condition_holds(model@, node, #[trigger] predicates@[j]),
        {
            if !self.check_predicate(model, node, &predicates[i]) {
                return false;
            }
        }
        true
    }

    /// Whether a node meets a condition.
    pub fn check_predicate(&self, model: &Model, node: EntityId, predicate: &QueryPredicate) -> (r: bool)
        ensures
            r == paths::condition_holds(model@, node, *predicate),
    {
        match predicate {
            QueryPredicate::Eq(path, literal) => {
                let values = self.follow_path(model, node, path, 0);
                assert(path.steps@.skip(0) =~= path.steps@);
                let target = self.literal_to_string(literal);
                holds_text(&values, target.as_str())
            },
            QueryPredicate::In(path, literals) => {
                let values = self.follow_path(model, node, path, 0);
                assert(path.steps@.skip(0) =~= path.steps@);
                for i in 0..literals.len()
                    invariant
                        *predicate == QueryPredicate::In(*path, *literals),
                        text::views(values@) == paths::path_literals(model@, node, path.steps@),
                        forall|j: int|
                            0 <= j < i ==> !text::views(values@).contains(
                                (#[trigger] literals@[j]).text(),
                            ),
                {
                    let target = self.literal_to_string(&literals[i]);
                    if holds_text(&values, target.as_str()) {
                        assert(text::views(values@).contains(literals@[i as int].text()));
                        return true;
                    }
                }
                false
            },
            QueryPredicate::Exists(path) => {
                let values = self.follow_path(model, node, path, 0);
                assert(path.steps@.skip(0) =~= path.steps@);
                assert(text::views(values@).len() == values@.len());
                values.len() > 0
            },
        }
    }

    /// The entities linked from some nodes under the predicate that a step names.
    fn follow_step(&self, model: &Model, nodes: &Vec<EntityId>, step: &QueryStep) -> (r: Vec<EntityId>)
        ensures
            r@ == paths::gathered(
                nodes@,
                |n: EntityId| paths::step_links(model@, step.node_test, n),
            ),
    {
        let mut next: Vec<EntityId> = Vec::new();
        let ghost links = |n: EntityId| paths::step_links(model@, step.node_test, n);
        for i in 0..nodes.len()
            invariant
                links == (|n: EntityId| paths::step_links(model@, step.node_test, n)),
                next@ == paths::gathered(nodes@.take(i as int), links),
        {
            assert(nodes@.take(i + 1).drop_last() =~= nodes@.take(i as int));
            let ghost before = next@;
            if let Some(name) = &step.node_test {
                let pred_name = name.to_text();
                if let Some(pred_id) = model.resolve(pred_name.as_str()) {
                    append_ids(&mut next, &model.linked_entities(nodes[i], pred_id));
                }
            }
            assert(next@ =~= before + links(nodes@[i as int]));
        }
        assert(nodes@.take(nodes@.len() as int) =~= nodes@);
        next
    }

    /// The literals that the steps of a path, but for the first `skip`, lead to
    /// from a node.
    fn follow_path(&self, model: &Model, start: EntityId, path: &QueryPath, skip: usize) -> (r: Vec<
        String,
    >)
        requires
            skip <= path.steps.len(),
        ensures
            text::views(r@) == paths::path_literals(
                model@,
                start,
                path.steps@.skip(skip as int),
            ),
    {
        let ghost steps = path.steps@.skip(skip as int);
        let mut current: Vec<EntityId> = vec![start];
        assert(current@ =~= seq![start]);
        for i in skip..path.steps.len()
            invariant
                skip <= path.steps.len(),
                steps == path.steps@.skip(skip as int),
                current@ == paths::followed(model@, seq![start], steps.take(i - skip)),
        {
            assert(steps.take(i + 1 - skip).drop_last() =~= steps.take(i - skip));
            assert(steps.take(i + 1 - skip).last() == path.steps@[i as int]);
            current = self.follow_step(model, &current, &path.steps[i]);
        }
        assert(steps.take(steps.len() as int) =~= steps);

        let mut results: Vec<String> = Vec::new();
        let ghost own = |n: EntityId| view::own_literals(model@.facts, n);
        assert(text::views(results@) =~= seq![]);
        for i in 0..current.len()
            invariant
                own == (|n: EntityId| view::own_literals(model@.facts, n)),
                text::views(results@) == paths::gathered(current@.take(i as int), own),
        {
            assert(current@.take(i + 1).drop_last() =~= current@.take(i as int));
            append_texts(&mut results, self.own_literals(model, current[i]));
        }
        assert(current@.take(current@.len() as int) =~= current@);
        assert(text::views(results@).len() == results@.len());

        if results.len() == 0 && path.steps.len() - skip == 1 {
            assert(steps[0] == path.steps@[skip as int]);
            if let Some(name) = &path.steps[skip].node_test {
                let pred_name = name.to_text();
                if let Some(pred_id) = model.resolve(pred_name.as_str()) {
                    return model.literals(start, pred_id);
                }
                assert(text::views(results@) =~= seq![]);
            }
        }
        results
    }

    /// All literals of a node.
    fn own_literals(&self, model: &Model, node: EntityId) -> (r: Vec<String>)
        ensures
            text::views(r@) == view::own_literals(model@.facts, node),
    {
        let mut results: Vec<String> = Vec::new();
        let ghost facts = model@.facts;
        assert(text::views(results@) =~= seq![]);
        let count: usize = model.statement_count();
        for i in 0..count
            invariant
                facts == model@.facts,
                count == facts.len(),
                text::views(results@) == view::own_literals(facts.take(i as int), node),
        {
            assert(facts.take(i + 1).drop_last() =~= facts.take(i as int));
            let stmt = model.statement(StatementId(i));
            assert(facts.take(i + 1).last() == stmt@);
            let ghost before = text::views(results@);
            if stmt.subject == node {
                if let Term::Literal(literal) = &stmt.object {
                    results.push(literal.clone());
                    assert(text::views(results@) =~= before.push(literal@));
                }
            }
        }
        assert(facts.take(facts.len() as int) =~= facts);
        results
    }

    /// The literals that the steps of a path, but for the first `skip`, lead to
    /// from some nodes, node by node.
    pub fn extract_literals(&self, model: &Model, start: &Vec<EntityId>, path: &QueryPath, skip: usize) -> (r:
        Vec<String>)
        requires
            skip <= path.steps.len(),
        ensures
            text::views(r@) == paths::all_literals(
                model@,
                start@,
                path.steps@.skip(skip as int),
            ),
    {
        let mut results: Vec<String> = Vec::new();
        let ghost steps = path.steps@.skip(skip as int);
        let ghost found = |n: EntityId| paths::path_literals(model@, n, steps);
        assert(text::views(results@) =~= seq![]);
        for i in 0..start.len()
            invariant
                skip <= path.steps.len(),
                steps == path.steps@.skip(skip as int),
                found == (|n: EntityId| paths::path_literals(model@, n, steps)),
                text::views(results@) == paths::gathered(start@.take(i as int), found),
        {
            assert(start@.take(i + 1).drop_last() =~= start@.take(i as int));
            append_texts(&mut results, self.follow_path(model, start[i], path, skip));
        }
        assert(start@.take(start@.len() as int) =~= start@);
        results
    }

    /// A constant as text.
    fn literal_to_string(&self, literal: &Literal) -> (r: String)
        ensures
            r@ == literal.text(),
    {
        match literal {
            Literal::String(s) => s.clone(),
            Literal::Number(n) => text::signed_text(*n),
            Literal::Bool(b) => text::truth_text(*b),
        }
    }
}

// ---------------------------------------------------------------------------
// Laws
// ---------------------------------------------------------------------------

/// A path leads to one of some constants exactly where it leads to at least one of
/// them, taken alone.
pub proof fn lemma_in_is_some_eq(
    m: ModelView,
    node: EntityId,
    path: QueryPath,
    literals: Vec<Literal>,
)
    ensures
        paths::condition_holds(m, node, QueryPredicate::In(path, literals)) <==> exists|i: int|
            0 <= i < literals@.len() && #[trigger] paths::condition_holds(
                m,
                node,
                QueryPredicate::Eq(path, literals@[i]),
            ),
{
    let found = paths::path_literals(m, node, path.steps@);
    if paths::holds_any(found, literals@) {
        let i = choose|i: int|
            0 <= i < literals@.len() && found.contains((#[trigger] literals@[i]).text());
        assert(paths::condition_holds(m, node, QueryPredicate::Eq(path, literals@[i])));
    }
}

/// To lead to one of a single constant is to lead to that constant.
pub proof fn lemma_in_one_is_eq(
    m: ModelView,
    node: EntityId,
    path: QueryPath,
    literals: Vec<Literal>,
    literal: Literal,
)
    requires
        literals@ == seq![literal],
    ensures
        paths::condition_holds(m, node, QueryPredicate::In(path, literals))
            == paths::condition_holds(m, node, QueryPredicate::Eq(path, literal)),
{
    assert(literals@[0] == literal);
}

/// No path leads to one of no constants.
pub proof fn lemma_in_none_fails(m: ModelView, node: EntityId, path: QueryPath, literals: Vec<Literal>)
    requires
        literals@.len() == 0,
    ensures
        !paths::condition_holds(m, node, QueryPredicate::In(path, literals)),
{
}

/// The order of the constants does not matter, nor does how often one is named.
pub proof fn lemma_in_ignores_order(
    m: ModelView,
    node: EntityId,
    path: QueryPath,
    literals: Vec<Literal>,
    others: Vec<Literal>,
)
    requires
        forall|literal: Literal| #[trigger]
            literals@.contains(literal) <==> others@.contains(literal),
    ensures
        paths::condition_holds(m, node, QueryPredicate::In(path, literals))
            == paths::condition_holds(m, node, QueryPredicate::In(path, others)),
{
    let found = paths::path_literals(m, node, path.steps@);
    if paths::holds_any(found, literals@) {
        let i = choose|i: int|
            0 <= i < literals@.len() && found.contains((#[trigger] literals@[i]).text());
        assert(literals@.contains(literals@[i]));
        let j = choose|j: int| 0 <= j < others@.len() && others@[j] == literals@[i];
        assert(found.contains(others@[j].text()));
    }
    if paths::holds_any(found, others@) {
        let j = choose|j: int|
            0 <= j < others@.len() && found.contains((#[trigger] others@[j]).text());
        assert(others@.contains(others@[j]));
        assert(literals@.contains(others@[j]));
        let i = choose|i: int| 0 <= i < literals@.len() && literals@[i] == others@[j];
        assert(found.contains(literals@[i].text()));
    }
}

/// A path that leads to a constant, or to one of some, leads to a literal.
pub proof fn lemma_equal_exists(
    m: ModelView,
    node: EntityId,
    path: QueryPath,
    literal: Literal,
    literals: Vec<Literal>,
)
    ensures
        paths::condition_holds(m, node, QueryPredicate::Eq(path, literal))
            ==> paths::condition_holds(m, node, QueryPredicate::Exists(path)),
        paths::condition_holds(m, node, QueryPredicate::In(path, literals))
            ==> paths::condition_holds(m, node, QueryPredicate::Exists(path)),
{
}

} // verus!
