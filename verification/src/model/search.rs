//! Searches through the graph, step by step.

use vstd::prelude::*;

use crate::kernel::paths;
use crate::kernel::query::{holds_id, QueryEngine};
use crate::kernel::query_laws;
use crate::kernel::traversal;
use crate::model::laws as graph;
use crate::model::view::{self, ModelView, ValueView};
use crate::model::{self, entity_id, EntityId, Model, Term};

verus! {

// ---------------------------------------------------------------------------
// What a search finds
// ---------------------------------------------------------------------------

/// Where a step leads.
#[derive(Debug, Clone, Copy, PartialEq, Eq, Structural)]
pub enum Axis {
    /// To what a node contains.
    Child,
    /// To what stands below a node at any depth.
    Descendant,
    /// To what a node is linked to under a predicate.
    Follow,
}

/// A step of a search.
pub struct StepView {
    pub axis: Axis,
    /// The type of the nodes wanted, or the predicate to follow.
    pub name: Option<Seq<char>>,
    /// What the nodes have to have, under which predicate.
    pub filters: Seq<(Seq<char>, ValueView)>,
}

/// Whether a node has a type, where one is wanted.
pub open spec fn is_wanted(m: ModelView, name: Option<Seq<char>>, id: EntityId) -> bool {
    match name {
        Some(n) => match m.resolve(n) {
            Some(kind) => m.has_type(id, kind),
            None => false,
        },
        None => true,
    }
}

/// Whether a node has all that it has to.
pub open spec fn meets(m: ModelView, filters: Seq<(Seq<char>, ValueView)>, id: EntityId) -> bool {
    forall|i: int|
        0 <= i < filters.len() ==> m.named_objects(id, (#[trigger] filters[i]).0).contains(
            filters[i].1,
        )
}

/// The nodes that a step leads to from a node, its filters left aside.
pub open spec fn leads_to(m: ModelView, step: StepView, node: EntityId) -> Seq<EntityId> {
    match step.axis {
        Axis::Child => paths::passing(
            m.children(node),
            |id: EntityId| is_wanted(m, step.name, id),
        ),
        Axis::Descendant => paths::passing(
            paths::descendants(m, node),
            |id: EntityId| is_wanted(m, step.name, id),
        ),
        Axis::Follow => match step.name {
            Some(predicate) => view::entities_of(m.named_objects(node, predicate)),
            None => seq![],
        },
    }
}

/// The nodes that a step leads to from some nodes, each once.
pub open spec fn search_step(m: ModelView, nodes: Seq<EntityId>, step: StepView) -> Seq<EntityId> {
    paths::distinct(
        paths::gathered(nodes, |n: EntityId| leads_to(m, step, n)),
        |id: EntityId| meets(m, step.filters, id),
    )
}

/// The nodes that some steps lead to from some nodes.
pub open spec fn search_from(m: ModelView, nodes: Seq<EntityId>, steps: Seq<StepView>) -> Seq<EntityId>
    decreases steps.len(),
{
    if steps.len() == 0 {
        nodes
    } else {
        search_step(m, search_from(m, nodes, steps.drop_last()), steps.last())
    }
}

/// What a search finds in the whole graph: its first step looks at all entities.
pub open spec fn search(m: ModelView, steps: Seq<StepView>) -> Seq<EntityId> {
    if steps.len() == 0 {
        seq![]
    } else {
        let first = paths::distinct(
            paths::all_ids(m),
            |id: EntityId| is_wanted(m, steps[0].name, id) && meets(m, steps[0].filters, id),
        );
        search_from(m, first, steps.skip(1))
    }
}

// ---------------------------------------------------------------------------
// Searching
// ---------------------------------------------------------------------------

/// A step of a search.
#[derive(Debug)]
pub struct QueryStep {
    pub axis: Axis,
    pub name: Option<String>,
    pub filters: Vec<(String, Term)>,
}

/// What some filters say.
pub open spec fn filter_views(filters: Seq<(String, Term)>) -> Seq<(Seq<char>, ValueView)> {
    Seq::new(filters.len(), |i: int| (filters[i].0@, filters[i].1@))
}

impl View for QueryStep {
    type V = StepView;

    open spec fn view(&self) -> StepView {
        StepView {
            axis: self.axis,
            name: self.name.deep_view(),
            filters: filter_views(self.filters@),
        }
    }
}

/// A search through the graph.
#[derive(Debug)]
pub struct Query {
    pub steps: Vec<QueryStep>,
}

impl View for Query {
    type V = Seq<StepView>;

    open spec fn view(&self) -> Seq<StepView> {
        Seq::new(self.steps@.len(), |i: int| self.steps@[i]@)
    }
}

/// An optional name.
pub open spec fn name_view(name: Option<&str>) -> Option<Seq<char>> {
    match name {
        Some(s) => Some(s@),
        None => None,
    }
}

impl Query {
    /// A search that begins with one step.
    fn of_step(axis: Axis, name: &str) -> (r: Query)
        ensures
            r@ == seq![StepView { axis, name: Some(name@), filters: seq![] }],
    {
        let filters: Vec<(String, Term)> = Vec::new();
        assert(filter_views(filters@) =~= seq![]);
        let r = Query { steps: vec![QueryStep { axis, name: Some(name.to_owned()), filters }] };
        assert(r@ =~= seq![StepView { axis, name: Some(name@), filters: seq![] }]);
        r
    }

    /// A search for what is linked under a predicate.
    pub fn follow(predicate: &str) -> (r: Query)
        ensures
            r@ == seq![
                StepView { axis: Axis::Follow, name: Some(predicate@), filters: seq![] },
            ],
    {
        Query::of_step(Axis::Follow, predicate)
    }

    /// A search for what has a type.
    pub fn descendant(kind: &str) -> (r: Query)
        ensures
            r@ == seq![
                StepView { axis: Axis::Descendant, name: Some(kind@), filters: seq![] },
            ],
    {
        Query::of_step(Axis::Descendant, kind)
    }

    /// The search with one more step.
    pub fn then_step(self, axis: Axis, name: Option<&str>) -> (r: Query)
        ensures
            r@ == self@.push(StepView { axis, name: name_view(name), filters: seq![] }),
    {
        let ghost before = self@;
        let filters: Vec<(String, Term)> = Vec::new();
        assert(filter_views(filters@) =~= seq![]);
        let step = QueryStep {
            axis,
            name: match name {
                Some(s) => Some(s.to_owned()),
                None => None,
            },
            filters,
        };
        let ghost entry = step@;
        let mut steps = self.steps;
        steps.push(step);
        let r = Query { steps };
        assert(r@ =~= before.push(entry));
        r
    }

    /// The search with one more step, along a predicate.
    pub fn then_follow(self, predicate: &str) -> (r: Query)
        ensures
            r@ == self@.push(
                StepView { axis: Axis::Follow, name: Some(predicate@), filters: seq![] },
            ),
    {
        self.then_step(Axis::Follow, Some(predicate))
    }

    /// The search whose last step asks for an object under a predicate too.
    pub fn filter(self, predicate: &str, value: Term) -> (r: Query)
        requires
            self@.len() > 0,
        ensures
            r@ == self@.drop_last().push(
                StepView {
                    filters: self@.last().filters.push((predicate@, value@)),
                    ..self@.last()
                },
            ),
    {
        let ghost before = self@;
        let mut steps = self.steps;
        let last = steps.pop();
        if let Some(step) = last {
            let ghost old_step = step@;
            assert(old_step == before.last());
            let QueryStep { axis, name, filters } = step;
            let mut filters = filters;
            let ghost list = filter_views(filters@);
            let ghost entry = (predicate@, value@);
            filters.push((predicate.to_owned(), value));
            assert(filter_views(filters@) =~= list.push(entry));
            steps.push(QueryStep { axis, name, filters });
        }
        let r = Query { steps };
        assert(r@ =~= before.drop_last().push(r@.last()));
        r
    }
}

impl Model {
    /// Whether a node has a type, where one is wanted.
    fn is_wanted(&self, name: &Option<String>, id: EntityId) -> (r: bool)
        ensures
            r == is_wanted(self@, name.deep_view(), id),
    {
        match name {
            Some(n) => match self.resolve(n.as_str()) {
                Some(kind) => self.has_type(id, kind),
                None => false,
            },
            None => true,
        }
    }

    /// Whether a node has all that it has to.
    fn meets(&self, filters: &Vec<(String, Term)>, id: EntityId) -> (r: bool)
        ensures
            r == meets(self@, filter_views(filters@), id),
    {
        let ghost all = filter_views(filters@);
        for i in 0..filters.len()
            invariant
                all == filter_views(filters@),
                forall|j: int|
                    0 <= j < i ==> self@.named_objects(id, (#[trigger] all[j]).0).contains(
                        all[j].1,
                    ),
        {
            assert(all[i as int] == (filters@[i as int].0@, filters@[i as int].1@));
            if !self.has_named(id, filters[i].0.as_str(), &filters[i].1) {
                return false;
            }
        }
        true
    }

    /// Whether a node has an object under a named predicate.
    fn has_named(&self, id: EntityId, predicate: &str, value: &Term) -> (r: bool)
        ensures
            r == self@.named_objects(id, predicate@).contains(value@),
    {
        match self.resolve(predicate) {
            Some(p) => {
                let objects = self.get_all(id, p);
                let ghost all = model::value_views(objects@);
                for i in 0..objects.len()
                    invariant
                        all == model::value_views(objects@),
                        all == self@.named_objects(id, predicate@),
                        forall|j: int| 0 <= j < i ==> all[j] != value@,
                {
                    assert(all[i as int] == objects@[i as int]@);
                    if objects[i].same(value) {
                        return true;
                    }
                }
                false
            },
            None => false,
        }
    }

    /// The nodes that a step leads to from a node, its filters left aside.
    fn leads_to(&self, step: &QueryStep, node: EntityId) -> (r: Vec<EntityId>)
        ensures
            r@ == leads_to(self@, step@, node),
    {
        let around = match step.axis {
            Axis::Child => self.children(node),
            Axis::Descendant => QueryEngine::new().descendants(self, node),
            Axis::Follow => {
                return match &step.name {
                    Some(predicate) => match self.resolve(predicate.as_str()) {
                        Some(p) => self.linked_entities(node, p),
                        None => Vec::new(),
                    },
                    None => Vec::new(),
                };
            },
        };
        let ghost wanted = |id: EntityId| is_wanted(self@, step@.name, id);
        let mut found: Vec<EntityId> = Vec::new();
        for i in 0..around.len()
            invariant
                wanted == (|id: EntityId| is_wanted(self@, step@.name, id)),
                found@ == paths::passing(around@.take(i as int), wanted),
        {
            assert(around@.take(i + 1).drop_last() =~= around@.take(i as int));
            if self.is_wanted(&step.name, around[i]) {
                found.push(around[i]);
            }
        }
        assert(around@.take(around@.len() as int) =~= around@);
        found
    }

    /// The nodes that a step leads to from some nodes, each once.
    fn search_step(&self, nodes: &Vec<EntityId>, step: &QueryStep) -> (r: Vec<EntityId>)
        ensures
            r@ == search_step(self@, nodes@, step@),
    {
        let ghost reach = |n: EntityId| leads_to(self@, step@, n);
        let ghost test = |id: EntityId| meets(self@, step@.filters, id);
        let mut around: Vec<EntityId> = Vec::new();
        for i in 0..nodes.len()
            invariant
                reach == (|n: EntityId| leads_to(self@, step@, n)),
                around@ == paths::gathered(nodes@.take(i as int), reach),
        {
            assert(nodes@.take(i + 1).drop_last() =~= nodes@.take(i as int));
            let mut more = self.leads_to(step, nodes[i]);
            around.append(&mut more);
        }
        assert(nodes@.take(nodes@.len() as int) =~= nodes@);
        let mut found: Vec<EntityId> = Vec::new();
        for i in 0..around.len()
            invariant
                test == (|id: EntityId| meets(self@, step@.filters, id)),
                found@ == paths::distinct(around@.take(i as int), test),
        {
            assert(around@.take(i + 1).drop_last() =~= around@.take(i as int));
            if self.meets(&step.filters, around[i]) && !holds_id(&found, around[i]) {
                found.push(around[i]);
            }
        }
        assert(around@.take(around@.len() as int) =~= around@);
        found
    }

    /// What the steps of a search, but for the first `skip`, find from some nodes.
    fn search_after(&self, start: Vec<EntityId>, query: &Query, skip: usize) -> (r: Vec<EntityId>)
        requires
            skip <= query.steps@.len(),
        ensures
            r@ == search_from(self@, start@, query@.skip(skip as int)),
    {
        let ghost from = start@;
        let ghost steps = query@.skip(skip as int);
        let mut current = start;
        for i in skip..query.steps.len()
            invariant
                skip <= query.steps@.len(),
                steps == query@.skip(skip as int),
                current@ == search_from(self@, from, steps.take(i - skip)),
        {
            assert(steps.take(i + 1 - skip).drop_last() =~= steps.take(i - skip));
            assert(steps.take(i + 1 - skip).last() == query.steps@[i as int]@);
            current = self.search_step(&current, &query.steps[i]);
        }
        assert(steps.take(steps.len() as int) =~= steps);
        current
    }

    /// What a search finds from some nodes.
    pub fn query_from(&self, start: Vec<EntityId>, query: &Query) -> (r: Vec<EntityId>)
        ensures
            r@ == search_from(self@, start@, query@),
    {
        assert(query@.skip(0) =~= query@);
        self.search_after(start, query, 0)
    }

    /// What a search finds in the whole graph.
    pub fn query(&self, query: &Query) -> (r: Vec<EntityId>)
        ensures
            r@ == search(self@, query@),
    {
        if query.steps.len() == 0 {
            return Vec::new();
        }
        let ghost step = query@[0];
        let ghost test = |id: EntityId|
            is_wanted(self@, query@[0].name, id) && meets(self@, query@[0].filters, id);
        let ghost ids = paths::all_ids(self@);
        let count: usize = self.entity_count();
        let mut first: Vec<EntityId> = Vec::new();
        for i in 0..count
            invariant
                count == ids.len(),
                ids == paths::all_ids(self@),
                query.steps@.len() > 0,
                test == (|id: EntityId|
                    is_wanted(self@, query@[0].name, id) && meets(self@, query@[0].filters, id)),
                first@ == paths::distinct(ids.take(i as int), test),
        {
            assert(ids.take(i + 1).drop_last() =~= ids.take(i as int));
            let id = entity_id(i);
            assert(ids.take(i + 1).last() == id);
            if self.is_wanted(&query.steps[0].name, id) && self.meets(
                &query.steps[0].filters,
                id,
            ) && !holds_id(&first, id) {
                first.push(id);
            }
        }
        assert(ids.take(count as int) =~= ids);
        self.search_after(first, query, 1)
    }
}

// ---------------------------------------------------------------------------
// Laws
// ---------------------------------------------------------------------------

/// What a search from some nodes finds meets the filters of its last step, and
/// is found once.
pub proof fn lemma_found_meets_filters(m: ModelView, nodes: Seq<EntityId>, steps: Seq<StepView>, id: EntityId)
    requires
        steps.len() > 0,
        search_from(m, nodes, steps).contains(id),
    ensures
        meets(m, steps.last().filters, id),
        search_from(m, nodes, steps).no_duplicates(),
{
    let before = search_from(m, nodes, steps.drop_last());
    traversal::lemma_distinct(
        paths::gathered(before, |n: EntityId| leads_to(m, steps.last(), n)),
        |id: EntityId| meets(m, steps.last().filters, id),
    );
}

/// A search of one step through the whole graph finds the entities that have the
/// type and meet the filters, wherever they stand.
pub proof fn lemma_search_finds_all(m: ModelView, step: StepView, id: EntityId)
    ensures
        search(m, seq![step]).contains(id) <==> paths::all_ids(m).contains(id) && is_wanted(
            m,
            step.name,
            id,
        ) && meets(m, step.filters, id),
{
    let steps = seq![step];
    assert(steps.skip(1) =~= seq![]);
    traversal::lemma_distinct(
        paths::all_ids(m),
        |id: EntityId| is_wanted(m, steps[0].name, id) && meets(m, steps[0].filters, id),
    );
}

/// A step of a search leads to what the graph says: to what a node contains, to
/// what stands below it, or to what it is linked to; of the type wanted, if any.
pub proof fn lemma_leads_to(m: ModelView, step: StepView, node: EntityId, x: EntityId)
    ensures
        leads_to(m, step, node).contains(x) <==> match step.axis {
            Axis::Child => query_laws::contains_node(m, node, x) && (step.name is Some
                ==> query_laws::is_of_type(m, x, step.name->0)),
            Axis::Descendant => traversal::is_below(m, node, x) && (step.name is Some
                ==> query_laws::is_of_type(m, x, step.name->0)),
            Axis::Follow => step.name is Some && query_laws::is_linked(m, node, step.name->0, x),
        },
{
    graph::lemma_children(m, node, x);
    traversal::lemma_descendants_are_all_below(m, node);
    lemma_wanted(m, step.name, x);
    let test = |id: EntityId| is_wanted(m, step.name, id);
    traversal::lemma_passing(m.children(node), test);
    traversal::lemma_passing(paths::descendants(m, node), test);
    if let Some(name) = step.name {
        if let Some(p) = m.resolve(name) {
            graph::lemma_objects(m, node, p, ValueView::Entity(x));
            graph::lemma_entities(view::objects(m.facts, node, p), x);
        }
    }
}

/// A node is wanted exactly where no type is asked for or it is of that type.
pub proof fn lemma_wanted(m: ModelView, name: Option<Seq<char>>, id: EntityId)
    ensures
        is_wanted(m, name, id) <==> (name is Some ==> query_laws::is_of_type(m, id, name->0)),
{
    if let Some(n) = name {
        if let Some(kind) = m.resolve(n) {
            graph::lemma_types(m, id, kind);
        }
    }
}

/// Whether a statement gives a node a value under a name.
pub open spec fn has_value(m: ModelView, id: EntityId, name: Seq<char>, value: ValueView) -> bool {
    m.resolve(name) is Some && m.has(id, m.resolve(name)->0, value)
}

/// A node meets filters exactly where, for each of them at every position, a
/// statement gives it the value.
pub proof fn lemma_meets_each(m: ModelView, filters: Seq<(Seq<char>, ValueView)>, id: EntityId)
    ensures
        meets(m, filters, id) <==> forall|i: int|
            0 <= i < filters.len() ==> has_value(
                m,
                id,
                (#[trigger] filters[i]).0,
                filters[i].1,
            ),
{
    assert forall|i: int| 0 <= i < filters.len() implies (m.named_objects(
        id,
        (#[trigger] filters[i]).0,
    ).contains(filters[i].1) <==> has_value(m, id, filters[i].0, filters[i].1)) by {
        if let Some(p) = m.resolve(filters[i].0) {
            graph::lemma_objects(m, id, p, filters[i].1);
        }
    }
}

/// A step leads from some nodes to what it leads to from one of them and what
/// meets its filters, each once.
pub proof fn lemma_search_step(m: ModelView, nodes: Seq<EntityId>, step: StepView, x: EntityId)
    ensures
        search_step(m, nodes, step).contains(x) <==> (exists|n: EntityId|
            nodes.contains(n) && #[trigger] leads_to(m, step, n).contains(x)) && meets(
            m,
            step.filters,
            x,
        ),
        search_step(m, nodes, step).no_duplicates(),
{
    let f = |n: EntityId| leads_to(m, step, n);
    let test = |id: EntityId| meets(m, step.filters, id);
    query_laws::lemma_gathered(nodes, f, x);
    traversal::lemma_distinct(paths::gathered(nodes, f), test);
    if paths::gathered(nodes, f).contains(x) {
        let n = choose|n: EntityId| nodes.contains(n) && #[trigger] f(n).contains(x);
        assert(leads_to(m, step, n).contains(x));
    }
    if exists|n: EntityId| nodes.contains(n) && #[trigger] leads_to(m, step, n).contains(x) {
        let n = choose|n: EntityId|
            nodes.contains(n) && #[trigger] leads_to(m, step, n).contains(x);
        assert(f(n).contains(x));
    }
}

/// A step takes its nodes in order: what it gives for the first of them comes
/// first.
pub proof fn lemma_search_step_in_order(
    m: ModelView,
    a: Seq<EntityId>,
    b: Seq<EntityId>,
    step: StepView,
)
    ensures
        search_step(m, a, step).is_prefix_of(search_step(m, a + b, step)),
{
    let f = |n: EntityId| leads_to(m, step, n);
    let test = |id: EntityId| meets(m, step.filters, id);
    query_laws::lemma_gathered_join(a, b, f);
    query_laws::lemma_distinct_prefix(paths::gathered(a, f), paths::gathered(b, f), test);
}

/// A longer search goes on from where the shorter one came to; a single step is
/// that step, and none stays where it is.
pub proof fn lemma_search_composes(
    m: ModelView,
    nodes: Seq<EntityId>,
    a: Seq<StepView>,
    b: Seq<StepView>,
)
    ensures
        search_from(m, nodes, a + b) == search_from(m, search_from(m, nodes, a), b),
        search_from(m, nodes, seq![]) == nodes,
        forall|step: StepView|
            search_from(m, nodes, #[trigger] seq![step]) == search_step(m, nodes, step),
        a.len() > 0 ==> search(m, a + b) == search_from(m, search(m, a), b),
        search(m, seq![]).len() == 0,
    decreases b.len(),
{
    assert forall|step: StepView|
        search_from(m, nodes, #[trigger] seq![step]) == search_step(m, nodes, step) by {
        let one = seq![step];
        assert(one.drop_last() =~= seq![]);
        assert(search_from(m, nodes, one.drop_last()) =~= nodes);
    }
    if b.len() == 0 {
        assert(a + b =~= a);
    } else {
        lemma_search_composes(m, nodes, a, b.drop_last());
        assert((a + b).drop_last() =~= a + b.drop_last());
        assert((a + b).last() == b.last());
        if a.len() > 0 {
            let first = paths::distinct(
                paths::all_ids(m),
                |id: EntityId| is_wanted(m, a[0].name, id) && meets(m, a[0].filters, id),
            );
            assert((a + b)[0] == a[0]);
            assert((a + b).skip(1) =~= a.skip(1) + b);
            lemma_steps_compose(m, first, a.skip(1), b);
        }
    }
}

proof fn lemma_steps_compose(
    m: ModelView,
    nodes: Seq<EntityId>,
    a: Seq<StepView>,
    b: Seq<StepView>,
)
    ensures
        search_from(m, nodes, a + b) == search_from(m, search_from(m, nodes, a), b),
    decreases b.len(),
{
    if b.len() == 0 {
        assert(a + b =~= a);
    } else {
        lemma_steps_compose(m, nodes, a, b.drop_last());
        assert((a + b).drop_last() =~= a + b.drop_last());
        assert((a + b).last() == b.last());
    }
}

/// A search of one step through the whole graph finds the entities of the graph of
/// the type that meet the filters, in the order of their identifiers.
pub proof fn lemma_search_in_order(m: ModelView, step: StepView, id: EntityId)
    requires
        m.ids_fit(),
    ensures
        search(m, seq![step]).contains(id) <==> id.0 < m.names.len() && (step.name is Some
            ==> query_laws::is_of_type(m, id, step.name->0)) && meets(m, step.filters, id),
        forall|i: int, j: int|
            0 <= i < j < search(m, seq![step]).len() ==> (#[trigger] search(m, seq![step])[i]).0 < (
            #[trigger] search(m, seq![step])[j]).0,
{
    let steps = seq![step];
    lemma_search_finds_all(m, step, id);
    lemma_wanted(m, step.name, id);
    let ids = paths::all_ids(m);
    if id.0 < m.names.len() {
        graph::lemma_id_at(id.0 as int);
        assert(ids[id.0 as int] == id);
    }
    if ids.contains(id) {
        let i = choose|i: int| 0 <= i < ids.len() && ids[i] == id;
        graph::lemma_id_at(i);
    }
    assert(steps.skip(1) =~= seq![]);
    let test = |id: EntityId| is_wanted(m, steps[0].name, id) && meets(m, steps[0].filters, id);
    assert forall|i: int, j: int| 0 <= i < j < ids.len() implies (#[trigger] ids[i]).0 < (
    #[trigger] ids[j]).0 by {
        graph::lemma_id_at(i);
        graph::lemma_id_at(j);
    }
    query_laws::lemma_distinct_increases(ids, test);
}

} // verus!
