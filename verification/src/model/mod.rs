//! The architecture graph: entities, and statements on them.

pub mod laws;
pub mod search;
pub mod view;

use vstd::prelude::*;

use crate::model::view::{Fact, ModelView, ValueView};
use crate::text;

verus! {

// ---------------------------------------------------------------------------
// Plain data
// ---------------------------------------------------------------------------

/// The identifier of an entity: its position among the entities of its model.
#[derive(Debug, Clone, Copy, PartialEq, Eq, Structural, Hash)]
pub struct EntityId(pub u32);

/// The identifier of a statement: its position among the statements.
#[derive(Debug, Clone, Copy, PartialEq, Eq, Structural, Hash)]
pub struct StatementId(pub usize);

/// A position in a document, counted from 0.
#[derive(Debug, Clone, Copy, PartialEq, Eq, Structural)]
pub struct Position {
    pub line: u32,
    pub character: u32,
}

/// A stretch of a document.
#[derive(Debug, Clone, Copy, PartialEq, Eq, Structural)]
pub struct Range {
    pub start: Position,
    pub end: Position,
}

/// What a statement says of its subject.
#[derive(Debug)]
pub enum Term {
    Entity(EntityId),
    Literal(String),
    Number(i64),
}

impl View for Term {
    type V = ValueView;

    open spec fn view(&self) -> ValueView {
        match self {
            Term::Entity(id) => ValueView::Entity(*id),
            Term::Literal(literal) => ValueView::Literal(literal@),
            Term::Number(n) => ValueView::Number(*n as int),
        }
    }
}

impl Clone for Term {
    fn clone(&self) -> (r: Self)
        ensures
            r == *self,
    {
        match self {
            Term::Entity(id) => Term::Entity(*id),
            Term::Literal(literal) => Term::Literal(literal.clone()),
            Term::Number(n) => Term::Number(*n),
        }
    }
}

impl Term {
    /// The entity, where the value is one.
    pub fn as_entity(&self) -> (r: Option<EntityId>)
        ensures
            r == (match self@ {
                ValueView::Entity(id) => Some(id),
                _ => None,
            }),
    {
        match self {
            Term::Entity(id) => Some(*id),
            _ => None,
        }
    }

    /// Whether two values are the same.
    pub fn same(&self, other: &Term) -> (r: bool)
        ensures
            r == (self@ == other@),
    {
        match (self, other) {
            (Term::Entity(a), Term::Entity(b)) => *a == *b,
            (Term::Literal(a), Term::Literal(b)) => *a == *b,
            (Term::Number(a), Term::Number(b)) => *a == *b,
            _ => false,
        }
    }
}

/// A statement: a subject, a predicate and an object.
#[derive(Debug)]
pub struct Statement {
    pub subject: EntityId,
    pub predicate: EntityId,
    pub object: Term,
}

impl View for Statement {
    type V = Fact;

    open spec fn view(&self) -> Fact {
        Fact { subject: self.subject, predicate: self.predicate, object: self.object@ }
    }
}

/// Why a change of a model was refused.
#[derive(Debug)]
pub struct ModelError {
    pub message: String,
}

/// The view of the outcome of a change.
pub open spec fn outcome_view<T>(r: Result<T, ModelError>) -> Result<T, Seq<char>> {
    match r {
        Ok(t) => Ok(t),
        Err(e) => Err(e.message@),
    }
}

/// Whether a range holds a position, its ends included.
pub fn position_in_range(pos: Position, range: Range) -> (r: bool)
    ensures
        r == view::range_holds(range, pos.line, pos.character),
{
    if pos.line < range.start.line || pos.line > range.end.line {
        return false;
    }
    if pos.line == range.start.line && pos.character < range.start.character {
        return false;
    }
    if pos.line == range.end.line && pos.character > range.end.character {
        return false;
    }
    true
}

// ---------------------------------------------------------------------------
// Views of the parts
// ---------------------------------------------------------------------------

pub open spec fn name_views(names: Seq<Option<String>>) -> Seq<Option<Seq<char>>> {
    Seq::new(names.len(), |i: int| names[i].deep_view())
}

pub open spec fn fact_views(statements: Seq<Statement>) -> Seq<Fact> {
    Seq::new(statements.len(), |i: int| statements[i]@)
}

pub open spec fn value_views(values: Seq<Term>) -> Seq<ValueView> {
    Seq::new(values.len(), |i: int| values[i]@)
}

pub open spec fn statement_positions(ids: Seq<StatementId>) -> Seq<int> {
    Seq::new(ids.len(), |i: int| ids[i].0 as int)
}

// ---------------------------------------------------------------------------
// The model
// ---------------------------------------------------------------------------

/// The architecture graph.
#[derive(Debug)]
pub struct Model {
    entities: Vec<Option<String>>,
    statements: Vec<Statement>,
    namespaces: Vec<String>,
    root: Option<EntityId>,
    sources: Vec<(EntityId, Range)>,
}

impl View for Model {
    type V = ModelView;

    closed spec fn view(&self) -> ModelView {
        ModelView {
            names: name_views(self.entities@),
            facts: fact_views(self.statements@),
            namespaces: text::views(self.namespaces@),
            root: self.root,
            sources: self.sources@,
        }
    }
}

/// The identifier of the entity at a position; it wraps around past 32 bits.
pub fn entity_id(i: usize) -> (r: EntityId)
    ensures
        r == view::id_at(i as int),
{
    EntityId(i as u32)
}

impl Model {
    /// How many entities there are.
    pub fn entity_count(&self) -> (r: usize)
        ensures
            r == self@.names.len(),
    {
        self.entities.len()
    }

    /// How many statements there are.
    pub fn statement_count(&self) -> (r: usize)
        ensures
            r == self@.facts.len(),
    {
        self.statements.len()
    }

    /// The entity that bears a qualified name.
    pub fn resolve(&self, name: &str) -> (r: Option<EntityId>)
        ensures
            r == self@.resolve(name@),
    {
        let ghost names = self@.names;
        for i in 0..self.entities.len()
            invariant
                names == name_views(self.entities@),
                names == self@.names,
                forall|j: int| 0 <= j < i ==> names[j] != Some(name@),
        {
            if let Some(known) = &self.entities[i] {
                if text::same_text(known.as_str(), name) {
                    proof {
                        assert(names[i as int] == self.entities@[i as int].deep_view());
                        assert(view::is_first_named(names, name@, i as int));
                        let chosen = choose|k: int| view::is_first_named(names, name@, k);
                        assert(chosen == i);
                    }
                    return Some(entity_id(i));
                }
            }
            assert(names[i as int] == self.entities@[i as int].deep_view());
        }
        None
    }

    /// What the model says of a subject under a predicate, in order.
    pub fn get_all(&self, subject: EntityId, predicate: EntityId) -> (r: Vec<Term>)
        ensures
            value_views(r@) == view::objects(self@.facts, subject, predicate),
    {
        let mut out: Vec<Term> = Vec::new();
        let ghost facts = self@.facts;
        for i in 0..self.statements.len()
            invariant
                facts == fact_views(self.statements@),
                value_views(out@) == view::objects(facts.take(i as int), subject, predicate),
        {
            proof {
                assert(facts.take(i + 1).drop_last() =~= facts.take(i as int));
                assert(facts.take(i + 1).last() == self.statements@[i as int]@);
            }
            let ghost before = value_views(out@);
            if self.statements[i].subject == subject && self.statements[i].predicate == predicate {
                out.push(self.statements[i].object.clone());
                proof {
                    assert(value_views(out@) =~= before.push(self.statements@[i as int].object@));
                }
            }
        }
        assert(facts.take(facts.len() as int) =~= facts);
        out
    }

    /// The entities that the model links from a subject under a predicate, in order.
    pub fn linked_entities(&self, subject: EntityId, predicate: EntityId) -> (r: Vec<EntityId>)
        ensures
            r@ == view::entities_of(view::objects(self@.facts, subject, predicate)),
    {
        let values = self.get_all(subject, predicate);
        let mut out: Vec<EntityId> = Vec::new();
        let ghost all = value_views(values@);
        for i in 0..values.len()
            invariant
                all == value_views(values@),
                out@ == view::entities_of(all.take(i as int)),
        {
            proof {
                assert(all.take(i + 1).drop_last() =~= all.take(i as int));
                assert(all.take(i + 1).last() == values@[i as int]@);
            }
            if let Term::Entity(id) = &values[i] {
                out.push(*id);
            }
        }
        assert(all.take(all.len() as int) =~= all);
        out
    }

    /// The literals that the model gives a subject under a predicate, in order.
    pub fn literals(&self, subject: EntityId, predicate: EntityId) -> (r: Vec<String>)
        ensures
            text::views(r@) == view::literals_of(view::objects(self@.facts, subject, predicate)),
    {
        let values = self.get_all(subject, predicate);
        let mut out: Vec<String> = Vec::new();
        let ghost all = value_views(values@);
        for i in 0..values.len()
            invariant
                all == value_views(values@),
                text::views(out@) == view::literals_of(all.take(i as int)),
        {
            proof {
                assert(all.take(i + 1).drop_last() =~= all.take(i as int));
                assert(all.take(i + 1).last() == values@[i as int]@);
            }
            let ghost before = text::views(out@);
            if let Term::Literal(literal) = &values[i] {
                out.push(literal.clone());
                proof {
                    assert(text::views(out@) =~= before.push(literal@));
                }
            }
        }
        assert(all.take(all.len() as int) =~= all);
        out
    }

    /// Whether a statement stands in the model.
    pub fn has(&self, subject: EntityId, predicate: EntityId, object: &Term) -> (r: bool)
        ensures
            r == self@.has(subject, predicate, object@),
    {
        let ghost wanted = Fact { subject, predicate, object: object@ };
        let ghost facts = self@.facts;
        for i in 0..self.statements.len()
            invariant
                facts == fact_views(self.statements@),
                wanted == (Fact { subject, predicate, object: object@ }),
                forall|j: int| 0 <= j < i ==> facts[j] != wanted,
        {
            assert(facts[i as int] == self.statements@[i as int]@);
            let s = &self.statements[i];
            if s.subject == subject && s.predicate == predicate && s.object.same(object) {
                assert(facts[i as int] == wanted);
                return true;
            }
        }
        false
    }

    /// Whether an entity has a type.
    pub fn has_type(&self, entity: EntityId, kind: EntityId) -> (r: bool)
        ensures
            r == self@.has_type(entity, kind),
    {
        match self.resolve("wa2:type") {
            Some(p) => self.has(entity, p, &Term::Entity(kind)),
            None => false,
        }
    }

    /// The types of an entity, in order.
    pub fn types(&self, entity: EntityId) -> (r: Vec<EntityId>)
        ensures
            r@ == self@.types(entity),
    {
        match self.resolve("wa2:type") {
            Some(p) => self.linked_entities(entity, p),
            None => Vec::new(),
        }
    }

    /// The entities that a node contains, in order.
    pub fn children(&self, node: EntityId) -> (r: Vec<EntityId>)
        ensures
            r@ == self@.children(node),
    {
        match self.resolve("wa2:contains") {
            Some(p) => self.linked_entities(node, p),
            None => Vec::new(),
        }
    }

    /// The first literal of an entity under a named predicate.
    pub fn get_literal(&self, entity: EntityId, predicate: &str) -> (r: Option<String>)
        ensures
            r.deep_view() == self@.literal(entity, predicate@),
    {
        let found: Vec<String> = match self.resolve(predicate) {
            Some(p) => self.literals(entity, p),
            None => Vec::new(),
        };
        proof {
            assert(text::views(found@) =~= view::literals_of(self@.named_objects(entity, predicate@)));
        }
        if found.len() > 0 {
            Some(found[0].clone())
        } else {
            None
        }
    }

    /// The first entity linked from an entity under a named predicate.
    pub fn get_linked(&self, entity: EntityId, predicate: &str) -> (r: Option<EntityId>)
        ensures
            r == self@.linked(entity, predicate@),
    {
        let found: Vec<EntityId> = match self.resolve(predicate) {
            Some(p) => self.linked_entities(entity, p),
            None => Vec::new(),
        };
        assert(found@ =~= view::entities_of(self@.named_objects(entity, predicate@)));
        if found.len() > 0 {
            Some(found[0])
        } else {
            None
        }
    }

    /// The statements that have a subject, in order.
    pub fn outgoing(&self, subject: EntityId) -> (r: Vec<StatementId>)
        ensures
            statement_positions(r@) == view::positions_of(self@.facts, subject),
            forall|i: int| 0 <= i < r.len() ==> (#[trigger] r@[i]).0 < self@.facts.len(),
    {
        let mut out: Vec<StatementId> = Vec::new();
        let ghost facts = self@.facts;
        for i in 0..self.statements.len()
            invariant
                facts == fact_views(self.statements@),
                statement_positions(out@) == view::positions_of(facts.take(i as int), subject),
                forall|k: int| 0 <= k < out.len() ==> (#[trigger] out@[k]).0 < i,
        {
            proof {
                assert(facts.take(i + 1).drop_last() =~= facts.take(i as int));
                assert(facts.take(i + 1).last() == self.statements@[i as int]@);
            }
            let ghost before = statement_positions(out@);
            if self.statements[i].subject == subject {
                out.push(StatementId(i));
                assert(statement_positions(out@) =~= before.push(i as int));
            }
        }
        assert(facts.take(facts.len() as int) =~= facts);
        out
    }

    /// A statement.
    pub fn statement(&self, id: StatementId) -> (r: &Statement)
        requires
            id.0 < self@.facts.len(),
        ensures
            r@ == self@.facts[id.0 as int],
    {
        &self.statements[id.0]
    }

    /// Whether an entity has no name.
    pub fn is_blank(&self, id: EntityId) -> (r: bool)
        ensures
            r == self@.is_blank(id),
    {
        let i: usize = id.0 as usize;
        i >= self.entities.len() || self.entities[i].is_none()
    }

    /// The qualified name of an entity; a generated one for a blank node.
    pub fn qualified_name(&self, id: EntityId) -> (r: String)
        ensures
            r@ == self@.name_of(id),
    {
        let i: usize = id.0 as usize;
        if i < self.entities.len() {
            if let Some(name) = &self.entities[i] {
                return name.clone();
            }
        }
        text::cat2("_:", text::decimal_text(id.0 as u64).as_str())
    }

    /// The root of the graph.
    pub fn root(&self) -> (r: Option<EntityId>)
        ensures
            r == self@.root,
    {
        self.root
    }

    /// The range recorded last for an entity.
    pub fn get_range(&self, entity: EntityId) -> (r: Option<Range>)
        ensures
            r == view::last_range(self@.sources, entity),
    {
        let mut found: Option<Range> = None;
        for i in 0..self.sources.len()
            invariant
                found == view::last_range(self.sources@.take(i as int), entity),
        {
            assert(self.sources@.take(i + 1).drop_last() =~= self.sources@.take(i as int));
            if self.sources[i].0 == entity {
                found = Some(self.sources[i].1);
            }
        }
        assert(self.sources@.take(self.sources@.len() as int) =~= self.sources@);
        found
    }

    /// The entity recorded last with a range that holds the position.
    pub fn entity_at_position(&self, pos: Position) -> (r: Option<EntityId>)
        ensures
            r == view::entity_at(self@.sources, pos.line, pos.character),
    {
        let mut found: Option<EntityId> = None;
        for i in 0..self.sources.len()
            invariant
                found == view::entity_at(self.sources@.take(i as int), pos.line, pos.character),
        {
            assert(self.sources@.take(i + 1).drop_last() =~= self.sources@.take(i as int));
            if position_in_range(pos, self.sources[i].1) {
                found = Some(self.sources[i].0);
            }
        }
        assert(self.sources@.take(self.sources@.len() as int) =~= self.sources@);
        found
    }
}

// ---------------------------------------------------------------------------
// The vocabulary that every model starts with
// ---------------------------------------------------------------------------

fn vocabulary_statement(subject: u32, kind: u32) -> (r: Statement)
    ensures
        r@ == view::vocabulary_fact(subject, kind),
{
    Statement { subject: EntityId(subject), predicate: EntityId(0), object: Term::Entity(EntityId(kind)) }
}

impl Model {
    /// The model that holds the `wa2` vocabulary and nothing else.
    pub fn bootstrap() -> (r: Model)
        ensures
            r@ == view::vocabulary(),
    {
        let entities: Vec<Option<String>> = vec![
            Some("wa2:type".to_owned()),
            Some("wa2:Type".to_owned()),
            Some("wa2:Predicate".to_owned()),
            Some("wa2:contains".to_owned()),
            Some("wa2:subTypeOf".to_owned()),
            Some("wa2:domain".to_owned()),
            Some("wa2:range".to_owned()),
        ];
        let statements: Vec<Statement> = vec![
            vocabulary_statement(0, 2),
            vocabulary_statement(1, 1),
            vocabulary_statement(2, 1),
            vocabulary_statement(3, 2),
            vocabulary_statement(4, 2),
            vocabulary_statement(5, 2),
            vocabulary_statement(6, 2),
        ];
        let namespaces: Vec<String> = vec!["wa2".to_owned()];
        let r = Model { entities, statements, namespaces, root: None, sources: Vec::new() };
        proof {
            assert(r@.names =~= view::vocabulary().names);
            assert(r@.facts =~= view::vocabulary().facts);
            assert(r@.namespaces =~= view::vocabulary().namespaces);
            assert(r@.sources =~= view::vocabulary().sources);
        }
        r
    }
}

// ---------------------------------------------------------------------------
// Changes
// ---------------------------------------------------------------------------

impl Model {
    /// Adds a blank node.
    ///
    /// Its identifier is the former number of entities; it wraps around past
    /// 32 bits.
    pub fn blank(&mut self) -> (r: EntityId)
        ensures
            r == old(self)@.next_id(),
            final(self)@ == old(self)@.with_blank(),
    {
        let id = entity_id(self.entities.len());
        self.entities.push(None);
        assert(name_views(self.entities@) =~= name_views(old(self).entities@).push(None));
        id
    }

    /// The entity of that name, made where there is none. The name's namespace
    /// is not looked at.
    pub fn ensure_raw(&mut self, name: &str) -> (r: EntityId)
        ensures
            (final(self)@, r) == old(self)@.with_name(name@),
    {
        match self.resolve(name) {
            Some(id) => id,
            None => {
                let id = entity_id(self.entities.len());
                self.entities.push(Some(name.to_owned()));
                assert(name_views(self.entities@) =~= name_views(old(self).entities@).push(
                    Some(name@),
                ));
                id
            },
        }
    }

    /// Whether a namespace is registered.
    pub fn has_namespace(&self, name: &str) -> (r: bool)
        ensures
            r == self@.namespaces.contains(name@),
    {
        let ghost known = self@.namespaces;
        for i in 0..self.namespaces.len()
            invariant
                known == text::views(self.namespaces@),
                forall|j: int| 0 <= j < i ==> known[j] != name@,
        {
            assert(known[i as int] == self.namespaces@[i as int]@);
            if text::same_text(self.namespaces[i].as_str(), name) {
                return true;
            }
        }
        false
    }

    /// The entity of a qualified name, made where there is none.
    ///
    /// Fails where the entity would have to be made and the name's namespace is
    /// not registered.
    pub fn ensure_entity(&mut self, name: &str) -> (r: Result<EntityId, ModelError>)
        ensures
            (final(self)@, outcome_view(r)) == old(self)@.ensure_entity(name@),
    {
        if let Some(id) = self.resolve(name) {
            return Ok(id);
        }
        if let Some(ns) = text::namespace_text(name) {
            if !self.has_namespace(ns.as_str()) {
                return Err(ModelError { message: text::cat2("unknown namespace: ", ns.as_str()) });
            }
        }
        Ok(self.ensure_raw(name))
    }

    /// Registers a namespace; the namespace that it is nested in comes first.
    pub fn ensure_namespace(&mut self, name: &str) -> (r: Result<(), ModelError>)
        ensures
            (final(self)@, outcome_view(r)) == old(self)@.ensure_namespace(name@),
    {
        if self.has_namespace(name) {
            return Ok(());
        }
        if let Some(parent) = text::namespace_text(name) {
            if !self.has_namespace(parent.as_str()) {
                return Err(
                    ModelError { message: text::cat2("unknown namespace: ", parent.as_str()) },
                );
            }
        }
        self.namespaces.push(name.to_owned());
        assert(text::views(self.namespaces@) =~= text::views(old(self).namespaces@).push(name@));
        Ok(())
    }

    /// Makes a statement, unless it stands already.
    fn add(&mut self, subject: EntityId, predicate: EntityId, object: Term)
        ensures
            final(self)@ == old(self)@.with_fact(Fact { subject, predicate, object: object@ }),
    {
        if !self.has(subject, predicate, &object) {
            let ghost fact = Fact { subject, predicate, object: object@ };
            self.statements.push(Statement { subject, predicate, object });
            assert(fact_views(self.statements@) =~= fact_views(old(self).statements@).push(fact));
        }
    }

    /// States that the subject is linked to an entity.
    pub fn apply_entity(&mut self, subject: EntityId, predicate: &str, object: EntityId) -> (r:
        Result<(), ModelError>)
        ensures
            (final(self)@, outcome_view(r)) == old(self)@.apply(
                subject,
                predicate@,
                ValueView::Entity(object),
            ),
    {
        let p = self.ensure_entity(predicate)?;
        self.add(subject, p, Term::Entity(object));
        Ok(())
    }

    /// States a literal of the subject.
    pub fn apply_literal(&mut self, subject: EntityId, predicate: &str, literal: &str) -> (r: Result<
        (),
        ModelError,
    >)
        ensures
            (final(self)@, outcome_view(r)) == old(self)@.apply(
                subject,
                predicate@,
                ValueView::Literal(literal@),
            ),
    {
        let p = self.ensure_entity(predicate)?;
        self.add(subject, p, Term::Literal(literal.to_owned()));
        Ok(())
    }

    /// Makes a statement whose object is written as text: a quoted literal, or
    /// the name of an entity.
    pub fn apply_to(&mut self, subject: EntityId, predicate: &str, object: &str) -> (r: Result<
        (),
        ModelError,
    >)
        ensures
            (final(self)@, outcome_view(r)) == old(self)@.apply_to(subject, predicate@, object@),
    {
        if text::quoted(object) {
            let literal = text::strip_quotes(object);
            return self.apply_literal(subject, predicate, literal.as_str());
        }
        let p = self.ensure_entity(predicate)?;
        let o = self.ensure_entity(object)?;
        self.add(subject, p, Term::Entity(o));
        Ok(())
    }

    /// Makes a statement whose subject is named.
    pub fn apply(&mut self, subject: &str, predicate: &str, object: &str) -> (r: Result<
        (),
        ModelError,
    >)
        ensures
            (final(self)@, outcome_view(r)) == old(self)@.apply_named(
                subject@,
                predicate@,
                object@,
            ),
    {
        let s = self.ensure_entity(subject)?;
        self.apply_to(s, predicate, object)
    }

    /// Sets the root of the graph.
    pub fn set_root(&mut self, root: EntityId)
        ensures
            final(self)@ == (ModelView { root: Some(root), ..old(self)@ }),
    {
        self.root = Some(root);
    }

    /// Records where an entity stands in the source.
    pub fn set_range(&mut self, entity: EntityId, range: Range)
        ensures
            final(self)@ == (ModelView {
                sources: old(self)@.sources.push((entity, range)),
                ..old(self)@
            }),
    {
        self.sources.push((entity, range));
    }
}

} // verus!
