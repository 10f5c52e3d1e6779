//! The graph, as a tree of entities.

use vstd::prelude::*;

use crate::kernel::query::holds_id;
use crate::kernel::traversal;
use crate::model::laws as graph;
use crate::model::view::{self, Fact, ModelView, ValueView};
use crate::model::{EntityId, Model, StatementId, Term};
use crate::report::layout::{self, append_lines, GraphNodeKind, Reporter};
use crate::text;

verus! {

// ---------------------------------------------------------------------------
// What the tree shows
// ---------------------------------------------------------------------------

/// The names of some entities.
pub open spec fn names_of(m: ModelView, ids: Seq<EntityId>) -> Seq<Seq<char>> {
    Seq::new(ids.len(), |i: int| m.name_of(ids[i]))
}

/// Whether some name begins with a prefix.
pub open spec fn some_begins(names: Seq<Seq<char>>, prefix: Seq<char>) -> bool {
    exists|i: int| 0 <= i < names.len() && text::has_prefix(#[trigger] names[i], prefix)
}

/// What a node is, by the names of its types.
pub open spec fn kind_by_types(types: Seq<Seq<char>>, is_blank: bool) -> GraphNodeKind {
    if types.contains("core:Run"@) {
        GraphNodeKind::Run
    } else if types.contains("core:Store"@) {
        GraphNodeKind::Store
    } else if types.contains("core:Move"@) {
        GraphNodeKind::Move
    } else if types.contains("core:Workload"@) {
        GraphNodeKind::Workload
    } else if types.contains("core:Evidence"@) {
        GraphNodeKind::Evidence
    } else if types.contains("aws:cfn:Template"@) {
        GraphNodeKind::Template
    } else if types.contains("aws:cfn:Resource"@) {
        GraphNodeKind::Resource
    } else if types.contains("aws:cfn:Parameter"@) {
        GraphNodeKind::Parameter
    } else if types.contains("aws:cfn:PseudoParameter"@) {
        GraphNodeKind::PseudoParameter
    } else if types.contains("aws:cfn:Output"@) {
        GraphNodeKind::Output
    } else if types.contains("aws:cfn:Ref"@) {
        GraphNodeKind::Ref
    } else if types.contains("aws:cfn:GetAtt"@) {
        GraphNodeKind::GetAtt
    } else if types.contains("aws:cfn:Sub"@) {
        GraphNodeKind::Sub
    } else if some_begins(types, "aws:cfn:"@) {
        GraphNodeKind::Intrinsic
    } else if is_blank {
        GraphNodeKind::Blank
    } else {
        GraphNodeKind::Entity
    }
}

/// What a node is.
pub open spec fn kind_of(m: ModelView, node: EntityId) -> GraphNodeKind {
    kind_by_types(names_of(m, m.types(node)), m.is_blank(node))
}

/// What a node says and leads to.
#[verifier::ext_equal]
pub struct Outline {
    /// Its literals and numbers.
    pub attributes: Seq<Seq<char>>,
    /// What it is linked to, with the names of the predicates.
    pub links: Seq<(Seq<char>, EntityId)>,
    /// What it contains.
    pub children: Seq<EntityId>,
}

/// An outline with one more statement on the node.
pub open spec fn outlined(o: Outline, predicate: Seq<char>, object: ValueView) -> Outline {
    if predicate == "wa2:type"@ {
        o
    } else {
        match object {
            ValueView::Literal(s) => Outline {
                attributes: o.attributes.push(predicate + "=\""@ + s + "\""@),
                ..o
            },
            ValueView::Number(n) => Outline {
                attributes: o.attributes.push(predicate + "="@ + text::signed_decimal(n)),
                ..o
            },
            ValueView::Entity(id) => if predicate == "wa2:contains"@ {
                Outline { children: o.children.push(id), ..o }
            } else {
                Outline { links: o.links.push((predicate, id)), ..o }
            },
        }
    }
}

/// What the first statements say of a node.
pub open spec fn outline(m: ModelView, node: EntityId, facts: Seq<Fact>) -> Outline
    decreases facts.len(),
{
    if facts.len() == 0 {
        Outline { attributes: seq![], links: seq![], children: seq![] }
    } else {
        let before = outline(m, node, facts.drop_last());
        let fact = facts.last();
        if fact.subject == node {
            outlined(before, m.name_of(fact.predicate), fact.object)
        } else {
            before
        }
    }
}

/// The name of a node, with those of its types.
pub open spec fn typed_name(m: ModelView, node: EntityId) -> Seq<char> {
    let types = names_of(m, m.types(node));
    if types.len() == 0 {
        m.name_of(node)
    } else {
        m.name_of(node) + " : "@ + text::joined(types, ", "@)
    }
}

/// What is shown below a node.
pub enum ItemView {
    /// A blank node under a predicate, with what is below it.
    Expand(Seq<char>, EntityId),
    /// A mention of an entity under a predicate.
    Mention(Seq<char>, EntityId),
    /// A node that the node contains.
    Child(EntityId),
}

/// How a link is shown.
pub open spec fn link_item(m: ModelView, link: (Seq<char>, EntityId), visited: Seq<EntityId>) -> ItemView {
    if m.is_blank(link.1) && !visited.contains(link.1) {
        ItemView::Expand(link.0, link.1)
    } else {
        ItemView::Mention(link.0, link.1)
    }
}

/// What is shown below a node: its links, then what it contains.
pub open spec fn items_below(m: ModelView, o: Outline, visited: Seq<EntityId>) -> Seq<ItemView> {
    Seq::new(o.links.len(), |i: int| link_item(m, o.links[i], visited)) + Seq::new(
        o.children.len(),
        |i: int| ItemView::Child(o.children[i]),
    )
}

/// The nodes that were shown, and the lines that show them.
#[verifier::ext_equal]
pub struct Drawing {
    pub visited: Seq<EntityId>,
    pub lines: Seq<Seq<char>>,
}

/// The detail of a node: its attributes, one to a line.
pub open spec fn attribute_detail(o: Outline) -> Option<Seq<char>> {
    if o.attributes.len() == 0 {
        None
    } else {
        Some(text::joined(o.attributes, "\n"@))
    }
}

/// The lines of a node of the tree.
pub open spec fn tree_lines(
    out: Reporter,
    prefix: Seq<char>,
    is_last: bool,
    kind: GraphNodeKind,
    label: Seq<char>,
    detail: Option<Seq<char>>,
) -> Seq<Seq<char>> {
    layout::node_lines(
        out.width as nat,
        prefix,
        is_last,
        layout::kind_marker(out.interactive, kind),
        label,
        detail,
    )
}

/// The drawing with a node and what is below it. A node that is shown already is
/// only mentioned. No more than `fuel` nodes are opened in one another.
pub open spec fn drawn(
    out: Reporter,
    m: ModelView,
    prefix: Seq<char>,
    is_last: bool,
    node: EntityId,
    visited: Seq<EntityId>,
    fuel: nat,
) -> Drawing
    decreases fuel, 0nat,
{
    let o = outline(m, node, m.facts);
    let kind = kind_of(m, node);
    let detail = attribute_detail(o);
    if visited.contains(node) {
        Drawing {
            visited,
            lines: tree_lines(
                out,
                prefix,
                is_last,
                kind,
                typed_name(m, node) + " (→)"@,
                detail,
            ),
        }
    } else if fuel == 0 {
        Drawing { visited, lines: seq![] }
    } else {
        let now = visited.push(node);
        let items = items_below(m, o, now);
        let below = drawn_items(
            out,
            m,
            layout::prefix_below(prefix, is_last),
            items,
            items.len(),
            now,
            (fuel - 1) as nat,
        );
        Drawing {
            visited: below.visited,
            lines: tree_lines(out, prefix, is_last, kind, typed_name(m, node), detail)
                + below.lines,
        }
    }
}

/// The drawing with the first items below a node that has `total` of them.
pub open spec fn drawn_items(
    out: Reporter,
    m: ModelView,
    prefix: Seq<char>,
    items: Seq<ItemView>,
    total: nat,
    visited: Seq<EntityId>,
    fuel: nat,
) -> Drawing
    decreases fuel, items.len() + 1,
{
    if items.len() == 0 {
        Drawing { visited, lines: seq![] }
    } else {
        let before = drawn_items(out, m, prefix, items.drop_last(), total, visited, fuel);
        let is_last = items.len() == total;
        match items.last() {
            ItemView::Expand(predicate, id) => {
                let nested = drawn(
                    out,
                    m,
                    layout::prefix_below(prefix, is_last),
                    true,
                    id,
                    before.visited,
                    fuel,
                );
                Drawing {
                    visited: nested.visited,
                    lines: before.lines + tree_lines(
                        out,
                        prefix,
                        is_last,
                        GraphNodeKind::Entity,
                        "-"@ + predicate + "-"@,
                        None,
                    ) + nested.lines,
                }
            },
            ItemView::Mention(predicate, id) => Drawing {
                visited: before.visited,
                lines: before.lines + tree_lines(
                    out,
                    prefix,
                    is_last,
                    kind_of(m, id),
                    "-"@ + predicate + "- "@ + typed_name(m, id) + " (→)"@,
                    None,
                ),
            },
            ItemView::Child(id) => {
                let nested = drawn(out, m, prefix, is_last, id, before.visited, fuel);
                Drawing { visited: nested.visited, lines: before.lines + nested.lines }
            },
        }
    }
}

/// The lines that show a graph from its root.
pub open spec fn graph_lines(out: Reporter, m: ModelView) -> Seq<Seq<char>> {
    match m.root {
        Some(root) => drawn(out, m, ""@, true, root, seq![], m.facts.len() + 2).lines,
        None => tree_lines(out, ""@, true, GraphNodeKind::Entity, "(no root set)"@, None),
    }
}

// ---------------------------------------------------------------------------
// Drawing
// ---------------------------------------------------------------------------

/// The names of the types of a node.
fn type_names(model: &Model, node: EntityId) -> (r: Vec<String>)
    ensures
        text::views(r@) == names_of(model@, model@.types(node)),
{
    let types = model.types(node);
    let ghost all = names_of(model@, types@);
    let mut names: Vec<String> = Vec::new();
    for i in 0..types.len()
        invariant
            all == names_of(model@, types@),
            text::views(names@) == all.take(i as int),
    {
        let ghost before = text::views(names@);
        names.push(model.qualified_name(types[i]));
        assert(text::views(names@) =~= before.push(all[i as int]));
        assert(all.take(i + 1) =~= all.take(i as int).push(all[i as int]));
    }
    assert(all.take(all.len() as int) =~= all);
    names
}

/// Whether a name is among some names.
fn has_name(names: &Vec<String>, name: &str) -> (r: bool)
    ensures
        r == text::views(names@).contains(name@),
{
    let ghost all = text::views(names@);
    for i in 0..names.len()
        invariant
            all == text::views(names@),
            forall|j: int| 0 <= j < i ==> all[j] != name@,
    {
        if text::same_text(names[i].as_str(), name) {
            assert(all[i as int] == name@);
            return true;
        }
        assert(all[i as int] != name@);
    }
    false
}

/// Whether some name begins with a prefix.
fn has_name_with_prefix(names: &Vec<String>, prefix: &str) -> (r: bool)
    ensures
        r == some_begins(text::views(names@), prefix@),
{
    let ghost all = text::views(names@);
    for i in 0..names.len()
        invariant
            all == text::views(names@),
            forall|j: int| 0 <= j < i ==> !text::has_prefix(#[trigger] all[j], prefix@),
    {
        assert(all[i as int] == names@[i as int]@);
        if text::starts_with(names[i].as_str(), prefix) {
            return true;
        }
    }
    false
}

/// What a node is.
pub fn classify_graph_node(model: &Model, node: EntityId) -> (r: GraphNodeKind)
    ensures
        r == kind_of(model@, node),
{
    let types = type_names(model, node);
    if has_name(&types, "core:Run") {
        return GraphNodeKind::Run;
    }
    if has_name(&types, "core:Store") {
        return GraphNodeKind::Store;
    }
    if has_name(&types, "core:Move") {
        return GraphNodeKind::Move;
    }
    if has_name(&types, "core:Workload") {
        return GraphNodeKind::Workload;
    }
    if has_name(&types, "core:Evidence") {
        return GraphNodeKind::Evidence;
    }
    if has_name(&types, "aws:cfn:Template") {
        return GraphNodeKind::Template;
    }
    if has_name(&types, "aws:cfn:Resource") {
        return GraphNodeKind::Resource;
    }
    if has_name(&types, "aws:cfn:Parameter") {
        return GraphNodeKind::Parameter;
    }
    if has_name(&types, "aws:cfn:PseudoParameter") {
        return GraphNodeKind::PseudoParameter;
    }
    if has_name(&types, "aws:cfn:Output") {
        return GraphNodeKind::Output;
    }
    if has_name(&types, "aws:cfn:Ref") {
        return GraphNodeKind::Ref;
    }
    if has_name(&types, "aws:cfn:GetAtt") {
        return GraphNodeKind::GetAtt;
    }
    if has_name(&types, "aws:cfn:Sub") {
        return GraphNodeKind::Sub;
    }
    if has_name_with_prefix(&types, "aws:cfn:") {
        return GraphNodeKind::Intrinsic;
    }
    if model.is_blank(node) {
        GraphNodeKind::Blank
    } else {
        GraphNodeKind::Entity
    }
}

/// What a linked node is.
pub fn graph_kind_for_link_ref(model: &Model, child_id: EntityId) -> (r: GraphNodeKind)
    ensures
        r == kind_of(model@, child_id),
{
    classify_graph_node(model, child_id)
}

/// The name of a node, with those of its types.
fn label_of_node(model: &Model, node: EntityId) -> (r: String)
    ensures
        r@ == typed_name(model@, node),
{
    let name = model.qualified_name(node);
    let types = type_names(model, node);
    assert(text::views(types@).len() == types@.len());
    if types.len() == 0 {
        name
    } else {
        text::cat3(name.as_str(), " : ", text::join_text(&types, ", ").as_str())
    }
}

/// What a node says and leads to.
struct NodeOutline {
    attributes: Vec<String>,
    links: Vec<(String, EntityId)>,
    children: Vec<EntityId>,
}

spec fn link_views(links: Seq<(String, EntityId)>) -> Seq<(Seq<char>, EntityId)> {
    Seq::new(links.len(), |i: int| (links[i].0@, links[i].1))
}

impl View for NodeOutline {
    type V = Outline;

    closed spec fn view(&self) -> Outline {
        Outline {
            attributes: text::views(self.attributes@),
            links: link_views(self.links@),
            children: self.children@,
        }
    }
}

impl NodeOutline {
    /// Adds a statement on the node.
    fn add(&mut self, predicate: String, object: &Term)
        ensures
            final(self)@ == outlined(old(self)@, predicate@, object@),
    {
        let ghost before = self@;
        if text::same_text(predicate.as_str(), "wa2:type") {
            return;
        }
        match object {
            Term::Literal(s) => {
                let attribute = text::cat4(predicate.as_str(), "=\"", s.as_str(), "\"");
                let ghost entry = attribute@;
                self.attributes.push(attribute);
                assert(text::views(self.attributes@) =~= before.attributes.push(entry));
            },
            Term::Number(n) => {
                let attribute = text::cat3(
                    predicate.as_str(),
                    "=",
                    text::signed_text(*n).as_str(),
                );
                let ghost entry = attribute@;
                self.attributes.push(attribute);
                assert(text::views(self.attributes@) =~= before.attributes.push(entry));
            },
            Term::Entity(id) => {
                if text::same_text(predicate.as_str(), "wa2:contains") {
                    self.children.push(*id);
                } else {
                    let ghost entry = (predicate@, *id);
                    self.links.push((predicate, *id));
                    assert(link_views(self.links@) =~= before.links.push(entry));
                }
            },
        }
    }
}

/// What a node says and leads to.
fn outline_of(model: &Model, node: EntityId) -> (r: NodeOutline)
    ensures
        r@ == outline(model@, node, model@.facts),
{
    let ghost facts = model@.facts;
    let mut found = NodeOutline {
        attributes: Vec::new(),
        links: Vec::new(),
        children: Vec::new(),
    };
    assert(found@ =~= outline(model@, node, facts.take(0))) by {
        assert(link_views(found.links@) =~= seq![]);
        assert(text::views(found.attributes@) =~= seq![]);
    }
    let count: usize = model.statement_count();
    for i in 0..count
        invariant
            facts == model@.facts,
            count == facts.len(),
            found@ == outline(model@, node, facts.take(i as int)),
    {
        assert(facts.take(i + 1).drop_last() =~= facts.take(i as int));
        let stmt = model.statement(StatementId(i));
        if stmt.subject == node {
            found.add(model.qualified_name(stmt.predicate), &stmt.object);
        }
    }
    assert(facts.take(count as int) =~= facts);
    found
}

/// What is shown below a node.
enum GraphItem {
    ExpandLinkedBlank { pred_name: String, child_id: EntityId },
    LinkRef { pred_name: String, child_id: EntityId },
    ContainsChild { child_id: EntityId },
}

impl View for GraphItem {
    type V = ItemView;

    closed spec fn view(&self) -> ItemView {
        match self {
            GraphItem::ExpandLinkedBlank { pred_name, child_id } => ItemView::Expand(
                pred_name@,
                *child_id,
            ),
            GraphItem::LinkRef { pred_name, child_id } => ItemView::Mention(
                pred_name@,
                *child_id,
            ),
            GraphItem::ContainsChild { child_id } => ItemView::Child(*child_id),
        }
    }
}

spec fn item_views(items: Seq<GraphItem>) -> Seq<ItemView> {
    Seq::new(items.len(), |i: int| items[i]@)
}

/// What is shown below a node.
fn collect_items(model: &Model, o: &NodeOutline, visited: &Vec<EntityId>) -> (r: Vec<GraphItem>)
    ensures
        item_views(r@) == items_below(model@, o@, visited@),
{
    let ghost all = items_below(model@, o@, visited@);
    let mut items: Vec<GraphItem> = Vec::new();
    for i in 0..o.links.len()
        invariant
            all == items_below(model@, o@, visited@),
            item_views(items@) == all.take(i as int),
    {
        let ghost before = item_views(items@);
        let child_id = o.links[i].1;
        let pred_name = o.links[i].0.clone();
        let item = if model.is_blank(child_id) && !holds_id(visited, child_id) {
            GraphItem::ExpandLinkedBlank { pred_name, child_id }
        } else {
            GraphItem::LinkRef { pred_name, child_id }
        };
        assert(o@.links[i as int] == (pred_name@, child_id));
        assert(item@ == all[i as int]);
        items.push(item);
        assert(item_views(items@) =~= before.push(all[i as int]));
        assert(all.take(i + 1) =~= all.take(i as int).push(all[i as int]));
    }
    for i in 0..o.children.len()
        invariant
            all == items_below(model@, o@, visited@),
            item_views(items@) == all.take(o.links.len() + i),
    {
        let ghost before = item_views(items@);
        let ghost at = o.links.len() + i;
        items.push(GraphItem::ContainsChild { child_id: o.children[i] });
        assert(all[at] == ItemView::Child(o.children@[i as int]));
        assert(item_views(items@) =~= before.push(all[at]));
        assert(all.take(at + 1) =~= all.take(at).push(all[at]));
    }
    assert(all.take(all.len() as int) =~= all);
    items
}

// ---------------------------------------------------------------------------
// The drawing ends
// ---------------------------------------------------------------------------

/// Whether an entity can come up in a drawing: it is the root or an object.
spec fn is_drawable(m: ModelView, root: EntityId, id: EntityId) -> bool {
    id == root || traversal::object_set(m.facts).contains(id)
}

/// Whether the nodes that were shown are different ones that can come up.
spec fn is_fair(m: ModelView, root: EntityId, visited: Seq<EntityId>) -> bool {
    &&& visited.no_duplicates()
    &&& forall|i: int| 0 <= i < visited.len() ==> is_drawable(m, root, #[trigger] visited[i])
}

/// No more nodes are shown than there are statements, and the root.
proof fn lemma_fair_bound(m: ModelView, root: EntityId, visited: Seq<EntityId>)
    requires
        is_fair(m, root, visited),
    ensures
        visited.len() <= m.facts.len() + 1,
{
    let all = traversal::object_set(m.facts).insert(root);
    traversal::lemma_object_set_bound(m.facts);
    visited.unique_seq_to_set();
    assert(visited.to_set().subset_of(all));
    vstd::set_lib::lemma_len_subset(visited.to_set(), all);
}

/// One more node that can come up can be shown, and there is fuel for it.
proof fn lemma_fair_push(m: ModelView, root: EntityId, visited: Seq<EntityId>, node: EntityId)
    requires
        is_fair(m, root, visited),
        is_drawable(m, root, node),
        !visited.contains(node),
    ensures
        is_fair(m, root, visited.push(node)),
        visited.len() <= m.facts.len(),
{
    let now = visited.push(node);
    assert(is_fair(m, root, now));
    lemma_fair_bound(m, root, now);
}

/// What a statement is about can come up in a drawing.
proof fn lemma_object_in_set(facts: Seq<Fact>, k: int, id: EntityId)
    requires
        0 <= k < facts.len(),
        facts[k].object == ValueView::Entity(id),
    ensures
        traversal::object_set(facts).contains(id),
    decreases facts.len(),
{
    if k < facts.len() - 1 {
        lemma_object_in_set(facts.drop_last(), k, id);
    }
}

proof fn lemma_outline_drawable(m: ModelView, node: EntityId, n: int)
    requires
        0 <= n <= m.facts.len(),
    ensures
        ({
            let o = outline(m, node, m.facts.take(n));
            &&& forall|i: int|
                0 <= i < o.links.len() ==> traversal::object_set(m.facts).contains(
                    (#[trigger] o.links[i]).1,
                )
            &&& forall|i: int|
                0 <= i < o.children.len() ==> traversal::object_set(m.facts).contains(
                    #[trigger] o.children[i],
                )
        }),
    decreases n,
{
    if n > 0 {
        lemma_outline_drawable(m, node, n - 1);
        assert(m.facts.take(n).drop_last() =~= m.facts.take(n - 1));
        let fact = m.facts[n - 1];
        assert(m.facts.take(n).last() == fact);
        if let ValueView::Entity(id) = fact.object {
            lemma_object_in_set(m.facts, n - 1, id);
        }
        let before = outline(m, node, m.facts.take(n - 1));
        let o = outline(m, node, m.facts.take(n));
        assert forall|i: int| 0 <= i < o.links.len() implies traversal::object_set(
            m.facts,
        ).contains((#[trigger] o.links[i]).1) by {
            if i < before.links.len() {
                assert(o.links[i] == before.links[i]);
            }
        }
        assert forall|i: int| 0 <= i < o.children.len() implies traversal::object_set(
            m.facts,
        ).contains(#[trigger] o.children[i]) by {
            if i < before.children.len() {
                assert(o.children[i] == before.children[i]);
            }
        }
    } else {
        assert(m.facts.take(n) =~= seq![]);
    }
}

/// The entity that an item is about.
spec fn item_entity(item: ItemView) -> EntityId {
    match item {
        ItemView::Expand(_, id) => id,
        ItemView::Mention(_, id) => id,
        ItemView::Child(id) => id,
    }
}

proof fn lemma_items_drawable(m: ModelView, root: EntityId, node: EntityId, visited: Seq<EntityId>)
    ensures
        ({
            let items = items_below(m, outline(m, node, m.facts), visited);
            forall|i: int|
                0 <= i < items.len() ==> is_drawable(m, root, item_entity(#[trigger] items[i]))
        }),
{
    lemma_outline_drawable(m, node, m.facts.len() as int);
    assert(m.facts.take(m.facts.len() as int) =~= m.facts);
    let o = outline(m, node, m.facts);
    let items = items_below(m, o, visited);
    assert forall|i: int| 0 <= i < items.len() implies is_drawable(
        m,
        root,
        item_entity(#[trigger] items[i]),
    ) by {
        if i < o.links.len() {
            assert(items[i] == link_item(m, o.links[i], visited));
        } else {
            assert(items[i] == ItemView::Child(o.children[i - o.links.len()]));
        }
    }
}

/// Draws a node and what is below it, and records the nodes that are shown.
///
/// `root` is where the drawing began: what comes up is that node or an object of
/// a statement, so `fuel` does not run out.
fn render_model_node(
    out: &Reporter,
    model: &Model,
    prefix: &str,
    is_last: bool,
    node: EntityId,
    visited: &mut Vec<EntityId>,
    Ghost(root): Ghost<EntityId>,
    Ghost(fuel): Ghost<nat>,
) -> (r: Vec<String>)
    requires
        is_fair(model@, root, old(visited)@),
        is_drawable(model@, root, node),
        fuel + old(visited)@.len() >= model@.facts.len() + 2,
    ensures
        is_fair(model@, root, final(visited)@),
        final(visited)@.len() >= old(visited)@.len(),
        (Drawing { visited: final(visited)@, lines: text::views(r@) }) == drawn(
            *out,
            model@,
            prefix@,
            is_last,
            node,
            old(visited)@,
            fuel,
        ),
    decreases fuel, 0nat,
{
    let kind = classify_graph_node(model, node);
    let label = label_of_node(model, node);
    let o = outline_of(model, node);
    let joined = text::join_text(&o.attributes, "\n");
    assert(text::views(o.attributes@).len() == o.attributes@.len());
    let detail = if o.attributes.len() == 0 {
        None
    } else {
        Some(joined.as_str())
    };
    if holds_id(visited, node) {
        let mention = text::cat2(label.as_str(), " (→)");
        return out.graph_tree(prefix, is_last, kind, mention.as_str(), detail);
    }
    proof {
        lemma_fair_push(model@, root, visited@, node);
    }
    visited.push(node);
    let mut lines = out.graph_tree(prefix, is_last, kind, label.as_str(), detail);
    let below = Reporter::child_prefix(prefix, is_last);
    let items = collect_items(model, &o, visited);
    proof {
        lemma_items_drawable(model@, root, node, visited@);
    }
    assert(item_views(items@).len() == items@.len());
    let more = render_items(
        out,
        model,
        below.as_str(),
        &items,
        visited,
        Ghost(root),
        Ghost((fuel - 1) as nat),
    );
    append_lines(&mut lines, more);
    lines
}

/// Draws the items below a node.
fn render_items(
    out: &Reporter,
    model: &Model,
    prefix: &str,
    items: &Vec<GraphItem>,
    visited: &mut Vec<EntityId>,
    Ghost(root): Ghost<EntityId>,
    Ghost(fuel): Ghost<nat>,
) -> (r: Vec<String>)
    requires
        is_fair(model@, root, old(visited)@),
        forall|i: int|
            0 <= i < items@.len() ==> is_drawable(
                model@,
                root,
                item_entity(#[trigger] item_views(items@)[i]),
            ),
        fuel + old(visited)@.len() >= model@.facts.len() + 2,
    ensures
        is_fair(model@, root, final(visited)@),
        final(visited)@.len() >= old(visited)@.len(),
        (Drawing { visited: final(visited)@, lines: text::views(r@) }) == drawn_items(
            *out,
            model@,
            prefix@,
            item_views(items@),
            items@.len(),
            old(visited)@,
            fuel,
        ),
    decreases fuel, items@.len() + 1,
{
    let ghost all = item_views(items@);
    let ghost start = visited@;
    let mut lines: Vec<String> = Vec::new();
    assert(text::views(lines@) =~= seq![]);
    let total: usize = items.len();
    for i in 0..total
        invariant
            total == items.len(),
            all == item_views(items@),
            start == old(visited)@,
            is_fair(model@, root, visited@),
            visited@.len() >= start.len(),
            forall|i: int|
                0 <= i < items@.len() ==> is_drawable(
                    model@,
                    root,
                    item_entity(#[trigger] item_views(items@)[i]),
                ),
            fuel + start.len() >= model@.facts.len() + 2,
            (Drawing { visited: visited@, lines: text::views(lines@) }) == drawn_items(
                *out,
                model@,
                prefix@,
                all.take(i as int),
                total as nat,
                start,
                fuel,
            ),
    {
        let is_last = i + 1 == total;
        assert(all.take(i + 1).drop_last() =~= all.take(i as int));
        assert(all.take(i + 1).last() == items@[i as int]@);
        assert(item_views(items@)[i as int] == items@[i as int]@);
        match &items[i] {
            GraphItem::ExpandLinkedBlank { pred_name, child_id } => {
                let label = text::cat3("-", pred_name.as_str(), "-");
                append_lines(
                    &mut lines,
                    out.graph_tree(prefix, is_last, GraphNodeKind::Entity, label.as_str(), None),
                );
                let nested = Reporter::child_prefix(prefix, is_last);
                let more = render_model_node(
                    out,
                    model,
                    nested.as_str(),
                    true,
                    *child_id,
                    visited,
                    Ghost(root),
                    Ghost(fuel),
                );
                append_lines(&mut lines, more);
            },
            GraphItem::LinkRef { pred_name, child_id } => {
                let child_kind = graph_kind_for_link_ref(model, *child_id);
                let name = label_of_node(model, *child_id);
                let label = text::cat5("-", pred_name.as_str(), "- ", name.as_str(), " (→)");
                append_lines(
                    &mut lines,
                    out.graph_tree(prefix, is_last, child_kind, label.as_str(), None),
                );
            },
            GraphItem::ContainsChild { child_id } => {
                let more = render_model_node(
                    out,
                    model,
                    prefix,
                    is_last,
                    *child_id,
                    visited,
                    Ghost(root),
                    Ghost(fuel),
                );
                append_lines(&mut lines, more);
            },
        }
    }
    assert(all.take(total as int) =~= all);
    lines
}

/// The lines that show a graph from its root.
pub fn print_model_graph(out: &Reporter, model: &Model) -> (r: Vec<String>)
    ensures
        text::views(r@) == graph_lines(*out, model@),
{
    match model.root() {
        Some(root) => {
            let mut visited: Vec<EntityId> = Vec::new();
            assert(visited@ =~= seq![]);
            render_model_node(
                out,
                model,
                "",
                true,
                root,
                &mut visited,
                Ghost(root),
                Ghost(model@.facts.len() + 2),
            )
        },
        None => out.graph_tree("", true, GraphNodeKind::Entity, "(no root set)", None),
    }
}

// ---------------------------------------------------------------------------
// The drawing is whole
// ---------------------------------------------------------------------------

/// Whether a node is opened below another one: as something that it contains, or as
/// an entity without a name that it is linked to.
pub open spec fn opens(m: ModelView, x: EntityId, y: EntityId) -> bool {
    ||| outline(m, x, m.facts).children.contains(y)
    ||| m.is_blank(y) && exists|i: int|
        0 <= i < outline(m, x, m.facts).links.len() && (#[trigger] outline(
            m,
            x,
            m.facts,
        ).links[i]).1 == y
}

/// Whether what is opened below the nodes beyond some others is among the nodes.
pub open spec fn is_closed(m: ModelView, before: Seq<EntityId>, nodes: Seq<EntityId>) -> bool {
    forall|x: EntityId, y: EntityId|
        nodes.contains(x) && !before.contains(x) && #[trigger] opens(m, x, y) ==> nodes.contains(y)
}

/// What drawing a node keeps.
spec fn went_on(m: ModelView, root: EntityId, before: Seq<EntityId>, after: Seq<EntityId>) -> bool {
    &&& is_fair(m, root, after)
    &&& before.is_prefix_of(after)
    &&& is_closed(m, before, after)
}

proof fn lemma_prefix_contains(a: Seq<EntityId>, b: Seq<EntityId>, x: EntityId)
    requires
        a.is_prefix_of(b),
        a.contains(x),
    ensures
        b.contains(x),
{
    let i = choose|i: int| 0 <= i < a.len() && a[i] == x;
    assert(b[i] == x);
}

proof fn lemma_went_on_transitive(
    m: ModelView,
    root: EntityId,
    a: Seq<EntityId>,
    b: Seq<EntityId>,
    c: Seq<EntityId>,
)
    requires
        went_on(m, root, a, b),
        went_on(m, root, b, c),
    ensures
        went_on(m, root, a, c),
{
    assert forall|x: EntityId, y: EntityId|
        c.contains(x) && !a.contains(x) && #[trigger] opens(m, x, y) implies c.contains(y) by {
        if b.contains(x) {
            lemma_prefix_contains(b, c, y);
        }
    }
}

proof fn lemma_drawn_whole(
    out: Reporter,
    m: ModelView,
    root: EntityId,
    prefix: Seq<char>,
    is_last: bool,
    node: EntityId,
    visited: Seq<EntityId>,
    fuel: nat,
)
    requires
        is_fair(m, root, visited),
        is_drawable(m, root, node),
        fuel + visited.len() >= m.facts.len() + 2,
    ensures
        went_on(
            m,
            root,
            visited,
            drawn(out, m, prefix, is_last, node, visited, fuel).visited,
        ),
        drawn(out, m, prefix, is_last, node, visited, fuel).visited.contains(node),
    decreases fuel, 0nat,
{
    if !visited.contains(node) {
        lemma_fair_push(m, root, visited, node);
        let now = visited.push(node);
        let o = outline(m, node, m.facts);
        let items = items_below(m, o, now);
        lemma_items_drawable(m, root, node, now);
        let below = layout::prefix_below(prefix, is_last);
        lemma_items_whole(out, m, root, below, items, items.len(), now, (fuel - 1) as nat);
        let after = drawn_items(
            out,
            m,
            below,
            items,
            items.len(),
            now,
            (fuel - 1) as nat,
        ).visited;
        assert(now[visited.len() as int] == node);
        lemma_prefix_contains(now, after, node);
        assert forall|x: EntityId, y: EntityId|
            after.contains(x) && !visited.contains(x) && #[trigger] opens(
                m,
                x,
                y,
            ) implies after.contains(y) by {
            if x == node {
                if o.children.contains(y) {
                    let i = choose|i: int| 0 <= i < o.children.len() && o.children[i] == y;
                    let at = o.links.len() + i;
                    assert(items[at] == ItemView::Child(y));
                } else {
                    let i = choose|i: int|
                        0 <= i < o.links.len() && (#[trigger] o.links[i]).1 == y;
                    assert(items[i] == link_item(m, o.links[i], now));
                    if now.contains(y) {
                        lemma_prefix_contains(now, after, y);
                    } else {
                        assert(!(items[i] is Mention));
                    }
                }
            } else {
                assert(!now.contains(x)) by {
                    if now.contains(x) {
                        let k = choose|k: int| 0 <= k < now.len() && now[k] == x;
                        assert(visited[k] == x);
                    }
                }
            }
        }
    }
}

proof fn lemma_items_whole(
    out: Reporter,
    m: ModelView,
    root: EntityId,
    prefix: Seq<char>,
    items: Seq<ItemView>,
    total: nat,
    visited: Seq<EntityId>,
    fuel: nat,
)
    requires
        is_fair(m, root, visited),
        forall|i: int|
            0 <= i < items.len() ==> is_drawable(m, root, item_entity(#[trigger] items[i])),
        fuel + visited.len() >= m.facts.len() + 2,
    ensures
        ({
            let after = drawn_items(out, m, prefix, items, total, visited, fuel).visited;
            &&& went_on(m, root, visited, after)
            &&& forall|i: int|
                0 <= i < items.len() && !(#[trigger] items[i] is Mention) ==> after.contains(
                    item_entity(items[i]),
                )
        }),
    decreases fuel, items.len() + 1,
{
    if items.len() > 0 {
        let rest = items.drop_last();
        assert forall|i: int| 0 <= i < rest.len() implies is_drawable(
            m,
            root,
            item_entity(#[trigger] rest[i]),
        ) by {
            assert(rest[i] == items[i]);
        }
        lemma_items_whole(out, m, root, prefix, rest, total, visited, fuel);
        let before = drawn_items(out, m, prefix, rest, total, visited, fuel).visited;
        let is_last = items.len() == total;
        let after = drawn_items(out, m, prefix, items, total, visited, fuel).visited;
        assert(is_drawable(m, root, item_entity(items[items.len() - 1])));
        match items.last() {
            ItemView::Expand(_, id) => {
                let below = layout::prefix_below(prefix, is_last);
                lemma_drawn_whole(out, m, root, below, true, id, before, fuel);
                lemma_went_on_transitive(m, root, visited, before, after);
            },
            ItemView::Mention(_, _) => {},
            ItemView::Child(id) => {
                lemma_drawn_whole(out, m, root, prefix, is_last, id, before, fuel);
                lemma_went_on_transitive(m, root, visited, before, after);
            },
        }
        assert forall|i: int| 0 <= i < items.len() && !(#[trigger] items[i] is Mention) implies after.contains(
            item_entity(items[i]),
        ) by {
            if i < rest.len() {
                assert(rest[i] == items[i]);
                lemma_prefix_contains(before, after, item_entity(items[i]));
            }
        }
    }
}

/// A drawing shows the root and all that is opened below it, cycles or not, and opens
/// each node once.
pub proof fn lemma_drawing_is_whole(out: Reporter, m: ModelView, root: EntityId)
    requires
        m.root == Some(root),
    ensures
        ({
            let shown = drawn(out, m, ""@, true, root, seq![], m.facts.len() + 2).visited;
            &&& shown.no_duplicates()
            &&& shown.contains(root)
            &&& is_closed(m, seq![], shown)
        }),
{
    lemma_drawn_whole(out, m, root, ""@, true, root, seq![], m.facts.len() + 2);
}

// ---------------------------------------------------------------------------
// What the drawing shows
// ---------------------------------------------------------------------------

/// The types that decide what a node is shown as, the weightiest first.
pub open spec fn by_weight() -> Seq<(Seq<char>, GraphNodeKind)> {
    seq![
        ("core:Run"@, GraphNodeKind::Run),
        ("core:Store"@, GraphNodeKind::Store),
        ("core:Move"@, GraphNodeKind::Move),
        ("core:Workload"@, GraphNodeKind::Workload),
        ("core:Evidence"@, GraphNodeKind::Evidence),
        ("aws:cfn:Template"@, GraphNodeKind::Template),
        ("aws:cfn:Resource"@, GraphNodeKind::Resource),
        ("aws:cfn:Parameter"@, GraphNodeKind::Parameter),
        ("aws:cfn:PseudoParameter"@, GraphNodeKind::PseudoParameter),
        ("aws:cfn:Output"@, GraphNodeKind::Output),
        ("aws:cfn:Ref"@, GraphNodeKind::Ref),
        ("aws:cfn:GetAtt"@, GraphNodeKind::GetAtt),
        ("aws:cfn:Sub"@, GraphNodeKind::Sub),
    ]
}

/// A node is shown as the weightiest of its types says, in whatever order it has
/// them; else as an intrinsic function where one of them is of CloudFormation; else
/// by whether it has a name.
pub proof fn lemma_kind(types: Seq<Seq<char>>, is_blank: bool, k: int, s: Seq<char>)
    ensures
        0 <= k < by_weight().len() && types.contains(by_weight()[k].0) && (forall|j: int|
            0 <= j < k ==> !types.contains((#[trigger] by_weight()[j]).0)) ==> kind_by_types(
            types,
            is_blank,
        ) == by_weight()[k].1,
        (forall|j: int|
            0 <= j < by_weight().len() ==> !types.contains((#[trigger] by_weight()[j]).0)) ==> {
            &&& types.contains("aws:cfn:"@ + s) ==> kind_by_types(types, is_blank)
                == GraphNodeKind::Intrinsic
            &&& !some_begins(types, "aws:cfn:"@) ==> kind_by_types(types, is_blank) == if is_blank {
                GraphNodeKind::Blank
            } else {
                GraphNodeKind::Entity
            }
        },
{
    let w = by_weight();
    assert(w.len() == 13);
    assert(w[0].0 == "core:Run"@ && w[1].0 == "core:Store"@ && w[2].0 == "core:Move"@ && w[3].0
        == "core:Workload"@ && w[4].0 == "core:Evidence"@);
    assert(w[5].0 == "aws:cfn:Template"@ && w[6].0 == "aws:cfn:Resource"@ && w[7].0
        == "aws:cfn:Parameter"@ && w[8].0 == "aws:cfn:PseudoParameter"@);
    assert(w[9].0 == "aws:cfn:Output"@ && w[10].0 == "aws:cfn:Ref"@ && w[11].0
        == "aws:cfn:GetAtt"@ && w[12].0 == "aws:cfn:Sub"@);
    if types.contains("aws:cfn:"@ + s) {
        let i = choose|i: int| 0 <= i < types.len() && types[i] == "aws:cfn:"@ + s;
        text::lemma_parts(types[i], "aws:cfn:"@, seq![], s);
        assert(text::has_prefix(types[i], "aws:cfn:"@));
    }
}

/// What statements in two parts say of a node is what the first part says and then
/// what the second does.
pub proof fn lemma_outline_join(m: ModelView, node: EntityId, a: Seq<Fact>, b: Seq<Fact>)
    ensures
        outline(m, node, a + b).attributes == outline(m, node, a).attributes + outline(
            m,
            node,
            b,
        ).attributes,
        outline(m, node, a + b).links == outline(m, node, a).links + outline(m, node, b).links,
        outline(m, node, a + b).children == outline(m, node, a).children + outline(
            m,
            node,
            b,
        ).children,
    decreases b.len(),
{
    let x = outline(m, node, a);
    if b.len() == 0 {
        assert(a + b =~= a);
    } else {
        lemma_outline_join(m, node, a, b.drop_last());
        assert((a + b).drop_last() =~= a + b.drop_last());
        assert((a + b).last() == b.last());
        let y = outline(m, node, b);
        let z = outline(m, node, a + b);
        assert(z.attributes =~= x.attributes + y.attributes);
        assert(z.links =~= x.links + y.links);
        assert(z.children =~= x.children + y.children);
    }
}

/// A single statement on a node is an attribute where it gives a literal or a
/// number, a child where it says that the node contains an entity, and else a link.
/// What it says of types, or of other nodes, is left out.
pub proof fn lemma_outline_of_one(m: ModelView, node: EntityId, fact: Fact)
    ensures
        ({
            let o = outline(m, node, seq![fact]);
            let name = m.name_of(fact.predicate);
            let counts = fact.subject == node && name != "wa2:type"@;
            let size = o.attributes.len() + o.links.len() + o.children.len();
            &&& !counts ==> size == 0
            &&& counts ==> size == 1
            &&& counts ==> match fact.object {
                ValueView::Literal(s) => o.attributes == seq![name + "=\""@ + s + "\""@],
                ValueView::Number(n) => o.attributes == seq![
                    name + "="@ + text::signed_decimal(n),
                ],
                ValueView::Entity(id) => {
                    &&& name == "wa2:contains"@ ==> o.children == seq![id]
                    &&& name != "wa2:contains"@ ==> o.links == seq![(name, id)]
                },
            }
        }),
{
    let one = seq![fact];
    let none = outline(m, node, one.drop_last());
    assert(one.drop_last() =~= seq![]);
    assert(none.attributes =~= seq![] && none.links =~= seq![] && none.children =~= seq![]);
    let o = outline(m, node, one);
    let name = m.name_of(fact.predicate);
    if fact.subject == node && name != "wa2:type"@ {
        match fact.object {
            ValueView::Literal(s) => {
                assert(o.attributes =~= seq![name + "=\""@ + s + "\""@]);
            },
            ValueView::Number(n) => {
                assert(o.attributes =~= seq![name + "="@ + text::signed_decimal(n)]);
            },
            ValueView::Entity(id) => {
                if name == "wa2:contains"@ {
                    assert(o.children =~= seq![id]);
                } else {
                    assert(o.links =~= seq![(name, id)]);
                }
            },
        }
    }
}

/// The name under which a node is shown holds its own name and that of each of its
/// types.
pub proof fn lemma_typed_name(m: ModelView, node: EntityId, i: int)
    ensures
        text::has_prefix(typed_name(m, node), m.name_of(node)),
        m.types(node).len() == 0 ==> typed_name(m, node) == m.name_of(node),
        0 <= i < m.types(node).len() ==> text::has_part(
            typed_name(m, node),
            m.name_of(m.types(node)[i]),
        ),
{
    let types = names_of(m, m.types(node));
    let name = m.name_of(node);
    text::lemma_parts(name, name, seq![], seq![]);
    assert(name + Seq::<char>::empty() =~= name);
    if types.len() > 0 {
        let whole = typed_name(m, node);
        let list = text::joined(types, ", "@);
        text::lemma_parts(name, name, seq![], " : "@ + list);
        assert(name + (" : "@ + list) =~= whole);
        if 0 <= i < types.len() {
            text::lemma_joined_holds(types, ", "@, i);
            let at = choose|at: int| text::occurs_at(list, types[i], at);
            let start = name.len() + " : "@.len() + at;
            assert(whole.subrange(start, start + types[i].len()) =~= list.subrange(
                at,
                at + types[i].len(),
            ));
            assert(text::occurs_at(whole, types[i], start));
        }
    }
}

/// Whether lines show a node as a node of the tree: its kind, its name with its
/// types, and all its attributes.
pub open spec fn shows_node(
    out: Reporter,
    m: ModelView,
    lines: Seq<Seq<char>>,
    x: EntityId,
) -> bool {
    exists|prefix: Seq<char>, is_last: bool|
        layout::holds_lines(lines, #[trigger] own_lines(out, m, prefix, is_last, x))
}

/// The lines of a node alone.
pub open spec fn own_lines(
    out: Reporter,
    m: ModelView,
    prefix: Seq<char>,
    is_last: bool,
    x: EntityId,
) -> Seq<Seq<char>> {
    let attributes = outline(m, x, m.facts).attributes;
    layout::node_lines(
        out.width as nat,
        prefix,
        is_last,
        layout::kind_marker(out.interactive, kind_of(m, x)),
        typed_name(m, x),
        if attributes.len() == 0 {
            None
        } else {
            Some(text::joined(attributes, "\n"@))
        },
    )
}

/// Whether lines show a link: where it leads by name, or, to an entity without a
/// name, the predicate alone, with the entity opened below it.
pub open spec fn shows_link(
    m: ModelView,
    lines: Seq<Seq<char>>,
    link: (Seq<char>, EntityId),
) -> bool {
    ||| layout::has_line(lines, "-"@ + link.0 + "- "@ + typed_name(m, link.1) + " (→)"@)
    ||| m.is_blank(link.1) && layout::has_line(lines, "-"@ + link.0 + "-"@)
}

/// Whether lines show each of some nodes and each of their links.
spec fn shows_all(
    out: Reporter,
    m: ModelView,
    lines: Seq<Seq<char>>,
    before: Seq<EntityId>,
    after: Seq<EntityId>,
) -> bool {
    forall|x: EntityId|
        #[trigger] after.contains(x) && !before.contains(x) ==> shows_node(out, m, lines, x) && (
        forall|i: int|
            0 <= i < outline(m, x, m.facts).links.len() ==> shows_link(
                m,
                lines,
                #[trigger] outline(m, x, m.facts).links[i],
            ))
}

proof fn lemma_shows_more(
    out: Reporter,
    m: ModelView,
    a: Seq<Seq<char>>,
    lines: Seq<Seq<char>>,
    b: Seq<Seq<char>>,
    before: Seq<EntityId>,
    after: Seq<EntityId>,
)
    requires
        shows_all(out, m, lines, before, after),
    ensures
        shows_all(out, m, a + lines + b, before, after),
{
    let none: Seq<Seq<char>> = seq![];
    let all = a + lines + b;
    assert(lines =~= none + lines + none);
    assert(layout::holds_lines(lines, lines));
    assert forall|x: EntityId| #[trigger] after.contains(x) && !before.contains(x) implies shows_node(
        out,
        m,
        all,
        x,
    ) && (forall|i: int|
        0 <= i < outline(m, x, m.facts).links.len() ==> shows_link(
            m,
            all,
            #[trigger] outline(m, x, m.facts).links[i],
        )) by {
        let (prefix, is_last) = choose|prefix: Seq<char>, is_last: bool|
            layout::holds_lines(lines, #[trigger] own_lines(out, m, prefix, is_last, x));
        layout::lemma_lines_in_lines(
            a,
            lines,
            b,
            own_lines(out, m, prefix, is_last, x),
            seq![],
        );
        assert forall|i: int| 0 <= i < outline(m, x, m.facts).links.len() implies shows_link(
            m,
            all,
            #[trigger] outline(m, x, m.facts).links[i],
        ) by {
            let link = outline(m, x, m.facts).links[i];
            assert(shows_link(m, lines, link));
            lemma_shows_link_more(m, a, lines, b, link);
        }
    }
}

proof fn lemma_shows_link_more(
    m: ModelView,
    a: Seq<Seq<char>>,
    lines: Seq<Seq<char>>,
    b: Seq<Seq<char>>,
    link: (Seq<char>, EntityId),
)
    requires
        shows_link(m, lines, link),
    ensures
        shows_link(m, a + lines + b, link),
{
    let none: Seq<Seq<char>> = seq![];
    assert(lines =~= none + lines + none);
    assert(layout::holds_lines(lines, lines));
    layout::lemma_lines_in_lines(
        a,
        lines,
        b,
        lines,
        "-"@ + link.0 + "- "@ + typed_name(m, link.1) + " (→)"@,
    );
    layout::lemma_lines_in_lines(a, lines, b, lines, "-"@ + link.0 + "-"@);
}

proof fn lemma_shows_both(
    out: Reporter,
    m: ModelView,
    lines: Seq<Seq<char>>,
    a: Seq<EntityId>,
    b: Seq<EntityId>,
    c: Seq<EntityId>,
)
    requires
        shows_all(out, m, lines, a, b),
        shows_all(out, m, lines, b, c),
    ensures
        shows_all(out, m, lines, a, c),
{
    assert forall|x: EntityId| #[trigger] c.contains(x) && !a.contains(x) implies shows_node(
        out,
        m,
        lines,
        x,
    ) && (forall|i: int|
        0 <= i < outline(m, x, m.facts).links.len() ==> shows_link(
            m,
            lines,
            #[trigger] outline(m, x, m.facts).links[i],
        )) by {
        if b.contains(x) {
        }
    }
}

proof fn lemma_drawn_shows(
    out: Reporter,
    m: ModelView,
    prefix: Seq<char>,
    is_last: bool,
    node: EntityId,
    visited: Seq<EntityId>,
    fuel: nat,
)
    ensures
        ({
            let d = drawn(out, m, prefix, is_last, node, visited, fuel);
            shows_all(out, m, d.lines, visited, d.visited)
        }),
    decreases fuel, 0nat,
{
    let d = drawn(out, m, prefix, is_last, node, visited, fuel);
    if !visited.contains(node) && fuel > 0 {
        let o = outline(m, node, m.facts);
        let now = visited.push(node);
        let items = items_below(m, o, now);
        let deeper = layout::prefix_below(prefix, is_last);
        let below = drawn_items(out, m, deeper, items, items.len(), now, (fuel - 1) as nat);
        lemma_items_shown(out, m, deeper, items, items.len(), now, (fuel - 1) as nat);
        let own = own_lines(out, m, prefix, is_last, node);
        let none: Seq<Seq<char>> = seq![];
        assert(d.lines =~= own + below.lines + none);
        assert(d.lines =~= none + own + below.lines);
        assert(layout::holds_lines(d.lines, own));
        lemma_shows_more(out, m, own, below.lines, none, now, below.visited);
        assert(shows_all(out, m, d.lines, visited, now)) by {
            assert forall|x: EntityId| #[trigger]
                now.contains(x) && !visited.contains(x) implies shows_node(out, m, d.lines, x) && (
            forall|i: int|
                0 <= i < outline(m, x, m.facts).links.len() ==> shows_link(
                    m,
                    d.lines,
                    #[trigger] outline(m, x, m.facts).links[i],
                )) by {
                let k = choose|k: int| 0 <= k < now.len() && now[k] == x;
                if k < visited.len() {
                    assert(visited[k] == x);
                }
                assert(x == node);
                assert forall|i: int| 0 <= i < o.links.len() implies shows_link(
                    m,
                    d.lines,
                    #[trigger] o.links[i],
                ) by {
                    assert(items[i] == link_item(m, o.links[i], now));
                    assert(shows_item(m, below.lines, items[i]));
                    lemma_shows_link_more(m, own, below.lines, none, o.links[i]);
                }
            }
        }
        lemma_shows_both(out, m, d.lines, visited, now, below.visited);
    }
}

/// Whether lines show what stands below a node by its predicate.
spec fn shows_item(m: ModelView, lines: Seq<Seq<char>>, item: ItemView) -> bool {
    match item {
        ItemView::Expand(predicate, id) => layout::has_line(lines, "-"@ + predicate + "-"@),
        ItemView::Mention(predicate, id) => layout::has_line(
            lines,
            "-"@ + predicate + "- "@ + typed_name(m, id) + " (→)"@,
        ),
        ItemView::Child(_) => true,
    }
}

#[verifier::rlimit(50)]
proof fn lemma_items_shown(
    out: Reporter,
    m: ModelView,
    prefix: Seq<char>,
    items: Seq<ItemView>,
    total: nat,
    visited: Seq<EntityId>,
    fuel: nat,
)
    ensures
        ({
            let d = drawn_items(out, m, prefix, items, total, visited, fuel);
            &&& shows_all(out, m, d.lines, visited, d.visited)
            &&& forall|i: int| 0 <= i < items.len() ==> shows_item(m, d.lines, #[trigger] items[i])
        }),
    decreases fuel, items.len() + 1,
{
    let d = drawn_items(out, m, prefix, items, total, visited, fuel);
    let none: Seq<Seq<char>> = seq![];
    if items.len() > 0 {
        let rest = items.drop_last();
        let before = drawn_items(out, m, prefix, rest, total, visited, fuel);
        lemma_items_shown(out, m, prefix, rest, total, visited, fuel);
        let is_last = items.len() == total;
        let more = d.lines.skip(before.lines.len() as int);
        let item = items.last();
        match item {
            ItemView::Expand(predicate, id) => {
                let label = "-"@ + predicate + "-"@;
                let deeper = layout::prefix_below(prefix, is_last);
                let nested = drawn(out, m, deeper, true, id, before.visited, fuel);
                lemma_drawn_shows(out, m, deeper, true, id, before.visited, fuel);
                let own = tree_lines(out, prefix, is_last, GraphNodeKind::Entity, label, None);
                layout::lemma_node_lines(
                    out.width as nat,
                    prefix,
                    is_last,
                    layout::kind_marker(out.interactive, GraphNodeKind::Entity),
                    label,
                    None,
                );
                assert(more =~= own + nested.lines);
                assert(d.lines =~= before.lines + own + nested.lines);
                assert(own =~= none + own + none);
                assert(layout::holds_lines(own, own));
                layout::lemma_lines_in_lines(before.lines, own, nested.lines, own, label);
                assert(d.lines =~= (before.lines + own) + nested.lines + none);
                lemma_shows_more(
                    out,
                    m,
                    before.lines + own,
                    nested.lines,
                    none,
                    before.visited,
                    nested.visited,
                );
            },
            ItemView::Mention(predicate, id) => {
                let label = "-"@ + predicate + "- "@ + typed_name(m, id) + " (→)"@;
                let own = tree_lines(out, prefix, is_last, kind_of(m, id), label, None);
                layout::lemma_node_lines(
                    out.width as nat,
                    prefix,
                    is_last,
                    layout::kind_marker(out.interactive, kind_of(m, id)),
                    label,
                    None,
                );
                assert(more =~= own);
                assert(d.lines =~= before.lines + own + none);
                assert(own =~= none + own + none);
                assert(layout::holds_lines(own, own));
                layout::lemma_lines_in_lines(before.lines, own, none, own, label);
                assert(shows_all(out, m, d.lines, before.visited, d.visited));
            },
            ItemView::Child(id) => {
                let nested = drawn(out, m, prefix, is_last, id, before.visited, fuel);
                lemma_drawn_shows(out, m, prefix, is_last, id, before.visited, fuel);
                assert(more =~= nested.lines);
                assert(d.lines =~= before.lines + nested.lines + none);
                lemma_shows_more(
                    out,
                    m,
                    before.lines,
                    nested.lines,
                    none,
                    before.visited,
                    nested.visited,
                );
            },
        }
        assert(d.lines =~= none + before.lines + more);
        lemma_shows_more(out, m, none, before.lines, more, visited, before.visited);
        lemma_shows_both(out, m, d.lines, visited, before.visited, d.visited);
        assert forall|i: int| 0 <= i < items.len() implies shows_item(
            m,
            d.lines,
            #[trigger] items[i],
        ) by {
            if i < rest.len() {
                assert(rest[i] == items[i]);
                assert(shows_item(m, before.lines, items[i]));
                assert(before.lines =~= none + before.lines + none);
                assert(layout::holds_lines(before.lines, before.lines));
                match items[i] {
                    ItemView::Expand(predicate, id) => {
                        layout::lemma_lines_in_lines(
                            none,
                            before.lines,
                            more,
                            before.lines,
                            "-"@ + predicate + "-"@,
                        );
                    },
                    ItemView::Mention(predicate, id) => {
                        layout::lemma_lines_in_lines(
                            none,
                            before.lines,
                            more,
                            before.lines,
                            "-"@ + predicate + "- "@ + typed_name(m, id) + " (→)"@,
                        );
                    },
                    ItemView::Child(_) => {},
                }
            } else {
                assert(items[i] == item);
            }
        }
    }
}

/// What a node contains is among its children in the outline.
proof fn lemma_child_in_outline(m: ModelView, node: EntityId, child: EntityId)
    requires
        m.ids_fit(),
        m.children(node).contains(child),
    ensures
        outline(m, node, m.facts).children.contains(child),
{
    graph::lemma_children(m, node, child);
    let p = m.resolve("wa2:contains"@)->0;
    let fact = Fact { subject: node, predicate: p, object: ValueView::Entity(child) };
    let k = choose|k: int| 0 <= k < m.facts.len() && m.facts[k] == fact;
    let i = choose|i: int| view::is_first_named(m.names, "wa2:contains"@, i);
    graph::lemma_id_at(i);
    assert(m.name_of(p) == "wa2:contains"@);
    reveal_strlit("wa2:contains");
    reveal_strlit("wa2:type");
    assert("wa2:contains"@.len() != "wa2:type"@.len());
    let a = m.facts.take(k);
    let one = seq![fact];
    let b = m.facts.skip(k + 1);
    assert(m.facts =~= (a + one) + b);
    lemma_outline_join(m, node, a + one, b);
    lemma_outline_join(m, node, a, one);
    lemma_outline_of_one(m, node, fact);
    let all = outline(m, node, m.facts).children;
    assert(all[outline(m, node, a).children.len() as int] == child);
}

proof fn lemma_path_is_shown(
    m: ModelView,
    shown: Seq<EntityId>,
    path: Seq<EntityId>,
    k: int,
)
    requires
        m.ids_fit(),
        is_closed(m, seq![], shown),
        path.len() > 0,
        shown.contains(path[0]),
        traversal::is_path(m, path),
        0 <= k < path.len(),
    ensures
        shown.contains(path[k]),
    decreases k,
{
    if k > 0 {
        lemma_path_is_shown(m, shown, path, k - 1);
        assert(m.children(path[k - 1]).contains(path[k]));
        lemma_child_in_outline(m, path[k - 1], path[k]);
        assert(!Seq::<EntityId>::empty().contains(path[k - 1]));
        assert(opens(m, path[k - 1], path[k]));
    }
}

/// The lines of a graph show its root, all that stands below the root by containment,
/// each with its kind, name, types and attributes, and each of the links of these,
/// with the entities without a name that they lead to; a graph without a root says
/// so.
pub proof fn lemma_graph_shows(out: Reporter, m: ModelView, x: EntityId)
    requires
        m.ids_fit(),
    ensures
        m.root is None ==> graph_lines(out, m).len() == 1 && text::has_suffix(
            graph_lines(out, m)[0],
            "(no root set)"@,
        ),
        m.root is Some && (x == m.root->0 || traversal::is_below(m, m.root->0, x)) ==> {
            &&& shows_node(out, m, graph_lines(out, m), x)
            &&& forall|i: int|
                0 <= i < outline(m, x, m.facts).links.len() ==> shows_link(
                    m,
                    graph_lines(out, m),
                    #[trigger] outline(m, x, m.facts).links[i],
                )
            &&& forall|y: EntityId| #[trigger]
                opens(m, x, y) ==> shows_node(out, m, graph_lines(out, m), y)
        },
{
    match m.root {
        None => {
            layout::lemma_node_lines(
                out.width as nat,
                ""@,
                true,
                layout::kind_marker(out.interactive, GraphNodeKind::Entity),
                "(no root set)"@,
                None,
            );
        },
        Some(root) => {
            let fuel = m.facts.len() + 2;
            let d = drawn(out, m, ""@, true, root, seq![], fuel);
            lemma_drawn_shows(out, m, ""@, true, root, seq![], fuel);
            lemma_drawing_is_whole(out, m, root);
            if x == root || traversal::is_below(m, root, x) {
                if traversal::is_below(m, root, x) {
                    let path = choose|path: Seq<EntityId>| #[trigger]
                        traversal::is_path_between(m, root, x, path);
                    lemma_path_is_shown(m, d.visited, path, path.len() - 1);
                }
                assert(d.visited.contains(x));
                assert(!Seq::<EntityId>::empty().contains(x));
                assert forall|y: EntityId| #[trigger] opens(m, x, y) implies shows_node(
                    out,
                    m,
                    graph_lines(out, m),
                    y,
                ) by {
                    assert(d.visited.contains(y));
                    assert(!Seq::<EntityId>::empty().contains(y));
                }
            }
        },
    }
}

/// Below a node its links come first, each opened where it leads to an entity without
/// a name that is not shown yet, and then what it contains; items are drawn in order.
pub proof fn lemma_items_in_order(
    out: Reporter,
    m: ModelView,
    o: Outline,
    prefix: Seq<char>,
    items: Seq<ItemView>,
    total: nat,
    visited: Seq<EntityId>,
    fuel: nat,
    n: int,
)
    requires
        0 <= n <= items.len(),
    ensures
        ({
            let below = items_below(m, o, visited);
            &&& below.len() == o.links.len() + o.children.len()
            &&& forall|i: int|
                0 <= i < o.links.len() ==> if m.is_blank(o.links[i].1) && !visited.contains(
                    o.links[i].1,
                ) {
                    #[trigger] below[i] == ItemView::Expand(o.links[i].0, o.links[i].1)
                } else {
                    below[i] == ItemView::Mention(o.links[i].0, o.links[i].1)
                }
            &&& forall|i: int|
                0 <= i < o.children.len() ==> below[o.links.len() + i] == ItemView::Child(
                    #[trigger] o.children[i],
                )
        }),
        drawn_items(out, m, prefix, items.take(n), total, visited, fuel).lines.is_prefix_of(
            drawn_items(out, m, prefix, items, total, visited, fuel).lines,
        ),
    decreases items.len(),
{
    if n == items.len() {
        assert(items.take(n) =~= items);
    } else {
        lemma_items_in_order(
            out,
            m,
            o,
            prefix,
            items.drop_last(),
            total,
            visited,
            fuel,
            n,
        );
        assert(items.drop_last().take(n) =~= items.take(n));
    }
}

} // verus!
