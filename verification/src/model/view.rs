//! The mathematical model of the architecture graph.

use vstd::prelude::*;

use crate::model::{EntityId, Range};
use crate::text;

verus! {

/// What a statement says of its subject.
pub enum ValueView {
    Entity(EntityId),
    Literal(Seq<char>),
    Number(int),
}

/// A statement: a subject, a predicate and an object.
pub struct Fact {
    pub subject: EntityId,
    pub predicate: EntityId,
    pub object: ValueView,
}

/// A graph: named and unnamed entities, and the statements on them.
#[verifier::ext_equal]
pub struct ModelView {
    /// The qualified name of each entity, `None` for a blank node.
    pub names: Seq<Option<Seq<char>>>,
    /// The statements, in the order in which they were made.
    pub facts: Seq<Fact>,
    /// The registered namespaces.
    pub namespaces: Seq<Seq<char>>,
    /// The root of the graph.
    pub root: Option<EntityId>,
    /// Where entities stand in the source, in the order of recording.
    pub sources: Seq<(EntityId, Range)>,
}

/// The identifier of the entity at a position.
///
/// Identifiers have 32 bits; positions beyond that wrap around.
pub open spec fn id_at(i: int) -> EntityId {
    EntityId((i as usize) as u32)
}

/// Whether `i` is the first position that bears the name.
pub open spec fn is_first_named(names: Seq<Option<Seq<char>>>, name: Seq<char>, i: int) -> bool {
    &&& 0 <= i < names.len()
    &&& names[i] == Some(name)
    &&& forall|j: int| 0 <= j < i ==> names[j] != Some(name)
}

/// The objects that the statements give a subject under a predicate, in order.
pub open spec fn objects(facts: Seq<Fact>, subject: EntityId, predicate: EntityId) -> Seq<ValueView>
    decreases facts.len(),
{
    if facts.len() == 0 {
        seq![]
    } else {
        let rest = objects(facts.drop_last(), subject, predicate);
        let fact = facts.last();
        if fact.subject == subject && fact.predicate == predicate {
            rest.push(fact.object)
        } else {
            rest
        }
    }
}

/// The entities among some objects, in order.
pub open spec fn entities_of(values: Seq<ValueView>) -> Seq<EntityId>
    decreases values.len(),
{
    if values.len() == 0 {
        seq![]
    } else {
        let rest = entities_of(values.drop_last());
        match values.last() {
            ValueView::Entity(id) => rest.push(id),
            _ => rest,
        }
    }
}

/// The literals among some objects, in order.
pub open spec fn literals_of(values: Seq<ValueView>) -> Seq<Seq<char>>
    decreases values.len(),
{
    if values.len() == 0 {
        seq![]
    } else {
        let rest = literals_of(values.drop_last());
        match values.last() {
            ValueView::Literal(literal) => rest.push(literal),
            _ => rest,
        }
    }
}

/// The positions of the statements that have a subject, in order.
pub open spec fn positions_of(facts: Seq<Fact>, subject: EntityId) -> Seq<int>
    decreases facts.len(),
{
    if facts.len() == 0 {
        seq![]
    } else {
        let rest = positions_of(facts.drop_last(), subject);
        if facts.last().subject == subject {
            rest.push(facts.len() - 1)
        } else {
            rest
        }
    }
}

/// All literals that the statements give a subject, in order.
pub open spec fn own_literals(facts: Seq<Fact>, subject: EntityId) -> Seq<Seq<char>>
    decreases facts.len(),
{
    if facts.len() == 0 {
        seq![]
    } else {
        let rest = own_literals(facts.drop_last(), subject);
        match facts.last().object {
            ValueView::Literal(literal) if facts.last().subject == subject => rest.push(literal),
            _ => rest,
        }
    }
}

/// Whether a range holds a position, its ends included.
pub open spec fn range_holds(range: Range, line: u32, character: u32) -> bool {
    &&& range.start.line <= line <= range.end.line
    &&& line == range.start.line ==> range.start.character <= character
    &&& line == range.end.line ==> character <= range.end.character
}

/// The range recorded last for an entity.
pub open spec fn last_range(sources: Seq<(EntityId, Range)>, entity: EntityId) -> Option<Range>
    decreases sources.len(),
{
    if sources.len() == 0 {
        None
    } else if sources.last().0 == entity {
        Some(sources.last().1)
    } else {
        last_range(sources.drop_last(), entity)
    }
}

/// The entity recorded last with a range that holds the position.
pub open spec fn entity_at(
    sources: Seq<(EntityId, Range)>,
    line: u32,
    character: u32,
) -> Option<EntityId>
    decreases sources.len(),
{
    if sources.len() == 0 {
        None
    } else if range_holds(sources.last().1, line, character) {
        Some(sources.last().0)
    } else {
        entity_at(sources.drop_last(), line, character)
    }
}

/// The statement that gives an entity of the vocabulary its type.
pub open spec fn vocabulary_fact(subject: u32, kind: u32) -> Fact {
    Fact {
        subject: EntityId(subject),
        predicate: EntityId(0),
        object: ValueView::Entity(EntityId(kind)),
    }
}

/// The graph that holds the `wa2` vocabulary and nothing else: two types and
/// five predicates, each with its type.
pub open spec fn vocabulary() -> ModelView {
    ModelView {
        names: seq![
            Some("wa2:type"@),
            Some("wa2:Type"@),
            Some("wa2:Predicate"@),
            Some("wa2:contains"@),
            Some("wa2:subTypeOf"@),
            Some("wa2:domain"@),
            Some("wa2:range"@),
        ],
        facts: seq![
            vocabulary_fact(0, 2),
            vocabulary_fact(1, 1),
            vocabulary_fact(2, 1),
            vocabulary_fact(3, 2),
            vocabulary_fact(4, 2),
            vocabulary_fact(5, 2),
            vocabulary_fact(6, 2),
        ],
        namespaces: seq!["wa2"@],
        root: None,
        sources: seq![],
    }
}

/// The message on a name in a namespace that is not registered.
pub open spec fn unknown_namespace(namespace: Seq<char>) -> Seq<char> {
    "unknown namespace: "@ + namespace
}

/// The outcome of a change: the graph after it, and the message where it failed.
pub type Change<T> = (ModelView, Result<T, Seq<char>>);

impl ModelView {
    /// The entity that bears a qualified name.
    pub open spec fn resolve(self, name: Seq<char>) -> Option<EntityId> {
        if exists|i: int| is_first_named(self.names, name, i) {
            Some(id_at(choose|i: int| is_first_named(self.names, name, i)))
        } else {
            None
        }
    }

    /// The qualified name of an entity; a generated one for a blank node.
    pub open spec fn name_of(self, id: EntityId) -> Seq<char> {
        if self.is_blank(id) {
            "_:"@ + text::decimal(id.0 as nat)
        } else {
            self.names[id.0 as int]->0
        }
    }

    /// Whether an entity has no name.
    pub open spec fn is_blank(self, id: EntityId) -> bool {
        id.0 >= self.names.len() || self.names[id.0 as int] is None
    }

    /// Whether a statement stands in the graph.
    pub open spec fn has(self, subject: EntityId, predicate: EntityId, object: ValueView) -> bool {
        self.facts.contains(Fact { subject, predicate, object })
    }

    /// What the graph says of a subject under a named predicate, in order.
    pub open spec fn named_objects(self, subject: EntityId, predicate: Seq<char>) -> Seq<ValueView> {
        match self.resolve(predicate) {
            Some(p) => objects(self.facts, subject, p),
            None => seq![],
        }
    }

    /// The entities that a node contains, in order.
    pub open spec fn children(self, node: EntityId) -> Seq<EntityId> {
        entities_of(self.named_objects(node, "wa2:contains"@))
    }

    /// The types of a node, in order.
    pub open spec fn types(self, node: EntityId) -> Seq<EntityId> {
        entities_of(self.named_objects(node, "wa2:type"@))
    }

    /// Whether a node has a type.
    pub open spec fn has_type(self, node: EntityId, kind: EntityId) -> bool {
        match self.resolve("wa2:type"@) {
            Some(p) => self.has(node, p, ValueView::Entity(kind)),
            None => false,
        }
    }

    /// The first literal of a node under a named predicate.
    pub open spec fn literal(self, node: EntityId, predicate: Seq<char>) -> Option<Seq<char>> {
        let found = literals_of(self.named_objects(node, predicate));
        if found.len() > 0 {
            Some(found[0])
        } else {
            None
        }
    }

    /// The first entity linked from a node under a named predicate.
    pub open spec fn linked(self, node: EntityId, predicate: Seq<char>) -> Option<EntityId> {
        let found = entities_of(self.named_objects(node, predicate));
        if found.len() > 0 {
            Some(found[0])
        } else {
            None
        }
    }

    /// The graph with one more blank node, whose identifier is the former count.
    pub open spec fn with_blank(self) -> ModelView {
        ModelView { names: self.names.push(None), ..self }
    }

    /// The identifier that the next entity gets.
    pub open spec fn next_id(self) -> EntityId {
        id_at(self.names.len() as int)
    }

    /// The graph in which a name, qualified or not, denotes an entity.
    pub open spec fn with_name(self, name: Seq<char>) -> (ModelView, EntityId) {
        match self.resolve(name) {
            Some(id) => (self, id),
            None => (ModelView { names: self.names.push(Some(name)), ..self }, self.next_id()),
        }
    }

    /// The graph in which a name whose namespace is registered denotes an entity.
    pub open spec fn ensure_entity(self, name: Seq<char>) -> Change<EntityId> {
        match text::namespace_part(name) {
            Some(ns) if self.resolve(name) is None && !self.namespaces.contains(ns) => (
                self,
                Err(unknown_namespace(ns)),
            ),
            _ => {
                let named = self.with_name(name);
                (named.0, Ok(named.1))
            },
        }
    }

    /// The graph in which a namespace is registered.
    pub open spec fn ensure_namespace(self, name: Seq<char>) -> Change<()> {
        if self.namespaces.contains(name) {
            (self, Ok(()))
        } else {
            match text::namespace_part(name) {
                Some(parent) if !self.namespaces.contains(parent) => (
                    self,
                    Err(unknown_namespace(parent)),
                ),
                _ => (ModelView { namespaces: self.namespaces.push(name), ..self }, Ok(())),
            }
        }
    }

    /// The graph in which a statement stands. A statement is made once.
    pub open spec fn with_fact(self, fact: Fact) -> ModelView {
        if self.facts.contains(fact) {
            self
        } else {
            ModelView { facts: self.facts.push(fact), ..self }
        }
    }

    /// The graph after a statement under a named predicate.
    pub open spec fn apply(
        self,
        subject: EntityId,
        predicate: Seq<char>,
        object: ValueView,
    ) -> Change<()> {
        match self.ensure_entity(predicate) {
            (m, Ok(p)) => (m.with_fact(Fact { subject, predicate: p, object }), Ok(())),
            (m, Err(e)) => (m, Err(e)),
        }
    }

    /// The graph after a statement whose object is written as text: a quoted
    /// literal, or the name of an entity.
    pub open spec fn apply_to(
        self,
        subject: EntityId,
        predicate: Seq<char>,
        object: Seq<char>,
    ) -> Change<()> {
        if text::is_quoted(object) {
            self.apply(subject, predicate, ValueView::Literal(text::unquoted(object)))
        } else {
            match self.ensure_entity(predicate) {
                (m, Ok(p)) => match m.ensure_entity(object) {
                    (m2, Ok(o)) => (
                        m2.with_fact(
                            Fact { subject, predicate: p, object: ValueView::Entity(o) },
                        ),
                        Ok(()),
                    ),
                    (m2, Err(e)) => (m2, Err(e)),
                },
                (m, Err(e)) => (m, Err(e)),
            }
        }
    }

    /// The graph after a statement whose subject is named.
    pub open spec fn apply_named(
        self,
        subject: Seq<char>,
        predicate: Seq<char>,
        object: Seq<char>,
    ) -> Change<()> {
        match self.ensure_entity(subject) {
            (m, Ok(s)) => m.apply_to(s, predicate, object),
            (m, Err(e)) => (m, Err(e)),
        }
    }

    /// Whether the identifiers of the entities are pairwise different.
    pub open spec fn ids_fit(self) -> bool {
        self.names.len() <= 0x1_0000_0000
    }
}

} // verus!
