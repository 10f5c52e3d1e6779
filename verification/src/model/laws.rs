//! What holds of the graph, whatever is done to it.

use vstd::prelude::*;

use crate::model::view::{self, Fact, ModelView, ValueView};
use crate::model::EntityId;
use crate::text;

verus! {

/// Whether `b` is `a` with more entities, statements and namespaces after those
/// that `a` holds.
#[verifier::opaque]
pub open spec fn extends(a: ModelView, b: ModelView) -> bool {
    &&& a.names.is_prefix_of(b.names)
    &&& a.facts.is_prefix_of(b.facts)
    &&& a.namespaces.is_prefix_of(b.namespaces)
    &&& a.root == b.root
    &&& a.sources == b.sources
}

/// A graph extends itself.
pub proof fn lemma_extends_reflexive(a: ModelView)
    ensures
        extends(a, a),
{
    reveal(extends);
}

/// What extends an extension extends the graph.
pub proof fn lemma_extends_transitive(a: ModelView, b: ModelView, c: ModelView)
    requires
        extends(a, b),
        extends(b, c),
    ensures
        extends(a, c),
{
    reveal(extends);
}

/// The first entity with a name is unique.
proof fn lemma_first_unique(m: ModelView, name: Seq<char>, i: int)
    requires
        view::is_first_named(m.names, name, i),
    ensures
        m.resolve(name) == Some(view::id_at(i)),
{
    let k = choose|k: int| view::is_first_named(m.names, name, k);
    assert(view::is_first_named(m.names, name, k));
    assert(k == i);
}

/// A name that some entity bears is resolved.
proof fn lemma_named_resolves(m: ModelView, name: Seq<char>, n: int)
    requires
        0 <= n < m.names.len(),
        m.names[n] == Some(name),
    ensures
        exists|i: int| view::is_first_named(m.names, name, i),
    decreases n,
{
    if forall|j: int| 0 <= j < n ==> m.names[j] != Some(name) {
        assert(view::is_first_named(m.names, name, n));
    } else {
        let j = choose|j: int| 0 <= j < n && m.names[j] == Some(name);
        lemma_named_resolves(m, name, j);
    }
}

/// A name keeps the entity that it denotes when the graph is extended.
pub proof fn lemma_resolve_stable(a: ModelView, b: ModelView, name: Seq<char>)
    requires
        extends(a, b),
        a.resolve(name) is Some,
    ensures
        b.resolve(name) == a.resolve(name),
{
    reveal(extends);
    let i = choose|i: int| view::is_first_named(a.names, name, i);
    assert(view::is_first_named(a.names, name, i));
    assert(forall|j: int| 0 <= j < a.names.len() ==> a.names[j] == b.names[j]);
    assert(view::is_first_named(b.names, name, i));
    lemma_first_unique(a, name, i);
    lemma_first_unique(b, name, i);
}

/// A statement stands in every extension of a graph in which it stands.
pub proof fn lemma_has_stable(
    a: ModelView,
    b: ModelView,
    subject: EntityId,
    predicate: EntityId,
    object: ValueView,
)
    requires
        extends(a, b),
        a.has(subject, predicate, object),
    ensures
        b.has(subject, predicate, object),
{
    reveal(extends);
    let fact = Fact { subject, predicate, object };
    let i = choose|i: int| 0 <= i < a.facts.len() && a.facts[i] == fact;
    assert(b.facts[i] == fact);
}

/// A type is kept in every extension of a graph.
pub proof fn lemma_has_type_stable(a: ModelView, b: ModelView, node: EntityId, kind: EntityId)
    requires
        extends(a, b),
        a.has_type(node, kind),
    ensures
        b.has_type(node, kind),
{
    reveal(extends);
    lemma_resolve_stable(a, b, "wa2:type"@);
    lemma_has_stable(a, b, node, a.resolve("wa2:type"@)->0, ValueView::Entity(kind));
}

/// A name denotes the entity that was made for it.
pub proof fn lemma_with_name(m: ModelView, name: Seq<char>)
    ensures
        extends(m, m.with_name(name).0),
        m.with_name(name).0.resolve(name) == Some(m.with_name(name).1),
        m.with_name(name).0.facts == m.facts,
        m.with_name(name).0.namespaces == m.namespaces,
{
    reveal(extends);
    let after = m.with_name(name).0;
    if m.resolve(name) is None {
        let n = m.names.len() as int;
        assert forall|j: int| 0 <= j < n implies m.names[j] != Some(name) by {
            if m.names[j] == Some(name) {
                lemma_named_resolves(m, name, j);
            }
        }
        assert(view::is_first_named(after.names, name, n));
        lemma_first_unique(after, name, n);
    }
}

/// After an entity was asked for by a name in a registered namespace, the name
/// denotes it.
pub proof fn lemma_ensure_then_resolve(m: ModelView, name: Seq<char>)
    ensures
        extends(m, m.ensure_entity(name).0),
        m.ensure_entity(name).0.facts == m.facts,
        m.ensure_entity(name).1 is Ok ==> m.ensure_entity(name).0.resolve(name) == Some(
            m.ensure_entity(name).1->Ok_0,
        ),
        m.ensure_entity(name).1 is Err ==> m.ensure_entity(name).0 == m,
{
    reveal(extends);
    lemma_with_name(m, name);
}

/// A name in a namespace that was never registered is refused, and the graph
/// stays as it is.
pub proof fn lemma_unknown_namespace_refused(m: ModelView, name: Seq<char>, namespace: Seq<char>)
    requires
        text::namespace_part(name) == Some(namespace),
        !m.namespaces.contains(namespace),
        m.resolve(name) is None,
    ensures
        m.ensure_entity(name) == (m, Err::<EntityId, Seq<char>>(view::unknown_namespace(namespace))),
{
}

/// A statement that was made stands in the graph, under the entity that its
/// predicate denotes.
pub proof fn lemma_apply_then_has(
    m: ModelView,
    subject: EntityId,
    predicate: Seq<char>,
    object: ValueView,
)
    ensures
        extends(m, m.apply(subject, predicate, object).0),
        m.apply(subject, predicate, object).1 is Ok ==> m.apply(
            subject,
            predicate,
            object,
        ).0.resolve(predicate) is Some && m.apply(subject, predicate, object).0.has(
            subject,
            m.apply(subject, predicate, object).0.resolve(predicate)->0,
            object,
        ),
        m.apply(subject, predicate, object).1 is Err ==> m.apply(subject, predicate, object).0 == m,
{
    reveal(extends);
    lemma_ensure_then_resolve(m, predicate);
    let ensured = m.ensure_entity(predicate);
    if ensured.1 is Ok {
        let fact = Fact { subject, predicate: ensured.1->Ok_0, object };
        let after = ensured.0.with_fact(fact);
        if !ensured.0.facts.contains(fact) {
            assert(after.facts.last() == fact);
        }
        assert(after.facts.contains(fact));
        assert(extends(ensured.0, after));
        lemma_resolve_stable(ensured.0, after, predicate);
    }
}

/// A statement is made once: to make it again changes nothing.
pub proof fn lemma_apply_idempotent(
    m: ModelView,
    subject: EntityId,
    predicate: Seq<char>,
    object: ValueView,
)
    requires
        m.apply(subject, predicate, object).1 is Ok,
    ensures
        m.apply(subject, predicate, object).0.apply(subject, predicate, object) == m.apply(
            subject,
            predicate,
            object,
        ),
{
    lemma_apply_then_has(m, subject, predicate, object);
}

/// A statement whose object is written as text leaves what was there.
pub proof fn lemma_apply_to_extends(
    m: ModelView,
    subject: EntityId,
    predicate: Seq<char>,
    object: Seq<char>,
)
    ensures
        extends(m, m.apply_to(subject, predicate, object).0),
{
    reveal(extends);
    if text::is_quoted(object) {
        lemma_apply_then_has(m, subject, predicate, ValueView::Literal(text::unquoted(object)));
    } else {
        lemma_ensure_then_resolve(m, predicate);
        let ensured = m.ensure_entity(predicate);
        lemma_ensure_then_resolve(ensured.0, object);
    }
}

/// A statement whose object is the name of an entity stands in the graph, under
/// the entities that the two names denote.
pub proof fn lemma_apply_to_then_has(
    m: ModelView,
    subject: EntityId,
    predicate: Seq<char>,
    object: Seq<char>,
)
    requires
        !text::is_quoted(object),
        m.apply_to(subject, predicate, object).1 is Ok,
    ensures
        ({
            let after = m.apply_to(subject, predicate, object).0;
            &&& after.resolve(predicate) is Some
            &&& after.resolve(object) is Some
            &&& after.has(
                subject,
                after.resolve(predicate)->0,
                ValueView::Entity(after.resolve(object)->0),
            )
        }),
{
    reveal(extends);
    lemma_ensure_then_resolve(m, predicate);
    let first = m.ensure_entity(predicate);
    lemma_ensure_then_resolve(first.0, object);
    let second = first.0.ensure_entity(object);
    lemma_resolve_stable(first.0, second.0, predicate);
    let fact = Fact {
        subject,
        predicate: first.1->Ok_0,
        object: ValueView::Entity(second.1->Ok_0),
    };
    let after = second.0.with_fact(fact);
    if !second.0.facts.contains(fact) {
        assert(after.facts.last() == fact);
    }
    assert(extends(second.0, after));
    lemma_resolve_stable(second.0, after, predicate);
    lemma_resolve_stable(second.0, after, object);
}

/// A new blank node leaves what was there.
pub proof fn lemma_blank_extends(m: ModelView)
    ensures
        extends(m, m.with_blank()),
{
    reveal(extends);
}

/// A new blank node is a new one, and has no name.
pub proof fn lemma_blank(m: ModelView)
    requires
        m.with_blank().ids_fit(),
    ensures
        m.with_blank().is_blank(m.next_id()),
        m.next_id().0 == m.names.len(),
{
    lemma_id_at(m.names.len() as int);
}

/// Positions within 32 bits are identifiers.
pub proof fn lemma_id_at(i: int)
    requires
        0 <= i < 0x1_0000_0000,
    ensures
        view::id_at(i).0 == i,
{
    assert(i as usize == i);
}

/// Each range holds its ends.
pub proof fn lemma_range_holds_ends(range: crate::model::Range)
    requires
        range.start.line < range.end.line || (range.start.line == range.end.line
            && range.start.character <= range.end.character),
    ensures
        view::range_holds(range, range.start.line, range.start.character),
        view::range_holds(range, range.end.line, range.end.character),
{
}

/// The names of the vocabulary denote different entities.
pub proof fn lemma_vocabulary_resolves()
    ensures
        view::vocabulary().resolve("wa2:type"@) == Some(EntityId(0)),
        view::vocabulary().resolve("wa2:Type"@) == Some(EntityId(1)),
        view::vocabulary().resolve("wa2:Predicate"@) == Some(EntityId(2)),
        view::vocabulary().resolve("wa2:contains"@) == Some(EntityId(3)),
        view::vocabulary().resolve("wa2:subTypeOf"@) == Some(EntityId(4)),
        view::vocabulary().resolve("wa2:domain"@) == Some(EntityId(5)),
        view::vocabulary().resolve("wa2:range"@) == Some(EntityId(6)),
{
    reveal_strlit("wa2:type");
    reveal_strlit("wa2:Type");
    reveal_strlit("wa2:Predicate");
    reveal_strlit("wa2:contains");
    reveal_strlit("wa2:subTypeOf");
    reveal_strlit("wa2:domain");
    reveal_strlit("wa2:range");
    let m = view::vocabulary();
    assert("wa2:type"@[4] != "wa2:Type"@[4]);
    assert("wa2:Predicate"@[4] != "wa2:subTypeOf"@[4]);
    assert("wa2:contains"@.len() == 12);
    assert("wa2:domain"@.len() == 10);
    assert("wa2:range"@.len() == 9);
    lemma_first_unique(m, "wa2:type"@, 0);
    lemma_first_unique(m, "wa2:Type"@, 1);
    lemma_first_unique(m, "wa2:Predicate"@, 2);
    lemma_first_unique(m, "wa2:contains"@, 3);
    lemma_first_unique(m, "wa2:subTypeOf"@, 4);
    lemma_first_unique(m, "wa2:domain"@, 5);
    lemma_first_unique(m, "wa2:range"@, 6);
    lemma_id_at(0);
    lemma_id_at(1);
    lemma_id_at(2);
    lemma_id_at(3);
    lemma_id_at(4);
    lemma_id_at(5);
    lemma_id_at(6);
}

/// The objects of a subject under a predicate are those that a statement gives
/// it.
pub proof fn lemma_objects(m: ModelView, subject: EntityId, predicate: EntityId, object: ValueView)
    ensures
        view::objects(m.facts, subject, predicate).contains(object) <==> m.has(
            subject,
            predicate,
            object,
        ),
{
    lemma_objects_of(m.facts, Fact { subject, predicate, object });
}

proof fn lemma_objects_of(facts: Seq<Fact>, fact: Fact)
    ensures
        view::objects(facts, fact.subject, fact.predicate).contains(fact.object)
            <==> facts.contains(fact),
    decreases facts.len(),
{
    if facts.len() > 0 {
        let rest = facts.drop_last();
        let last = facts.last();
        lemma_objects_of(rest, fact);
        lemma_push(rest, last, fact);
        assert(facts =~= rest.push(last));
        lemma_push(
            view::objects(rest, fact.subject, fact.predicate),
            last.object,
            fact.object,
        );
    }
}

/// The entities among some objects are found.
pub proof fn lemma_entities(values: Seq<ValueView>, id: EntityId)
    ensures
        view::entities_of(values).contains(id) <==> values.contains(ValueView::Entity(id)),
    decreases values.len(),
{
    if values.len() > 0 {
        let rest = values.drop_last();
        let last = values.last();
        lemma_entities(rest, id);
        lemma_push(rest, last, ValueView::Entity(id));
        assert(values =~= rest.push(last));
        if let ValueView::Entity(other) = last {
            lemma_push(view::entities_of(rest), other, id);
        }
    }
}

/// Different names denote different entities, where identifiers do not wrap around.
pub proof fn lemma_names_differ(m: ModelView, name: Seq<char>, other: Seq<char>)
    requires
        m.ids_fit(),
        name != other,
        m.resolve(name) is Some,
        m.resolve(other) is Some,
    ensures
        m.resolve(name) != m.resolve(other),
{
    let i = choose|i: int| view::is_first_named(m.names, name, i);
    let j = choose|j: int| view::is_first_named(m.names, other, j);
    assert(view::is_first_named(m.names, name, i));
    assert(view::is_first_named(m.names, other, j));
    lemma_id_at(i);
    lemma_id_at(j);
}

/// A name that a graph does not know denotes a new entity in its extensions, if
/// it denotes one there.
pub proof fn lemma_new_name_is_new(a: ModelView, b: ModelView, name: Seq<char>)
    requires
        extends(a, b),
        b.ids_fit(),
        a.resolve(name) is None,
        b.resolve(name) is Some,
    ensures
        a.names.len() <= (b.resolve(name)->0).0 < b.names.len(),
{
    reveal(extends);
    let i = choose|i: int| view::is_first_named(b.names, name, i);
    assert(view::is_first_named(b.names, name, i));
    lemma_id_at(i);
    if i < a.names.len() {
        assert(a.names[i] == b.names[i]);
        lemma_named_resolves(a, name, i);
    }
}

/// Whether a statement speaks of an entity.
pub open spec fn speaks_of(fact: Fact, id: EntityId) -> bool {
    fact.subject == id || fact.predicate == id || fact.object == ValueView::Entity(id)
}

/// Whether no statement of `a` speaks of an entity that is in `b` and not yet in
/// `a`.
pub open spec fn is_silent_on_new(a: ModelView, b: ModelView) -> bool {
    forall|i: int, id: EntityId|
        0 <= i < a.facts.len() && a.names.len() <= id.0 < b.names.len() ==> !#[trigger] speaks_of(
            a.facts[i],
            id,
        )
}

/// Whether an entity is in a graph.
pub open spec fn holds(m: ModelView, id: EntityId) -> bool {
    id.0 < m.names.len()
}

/// Whether the object of a statement is in a graph, if it is an entity.
pub open spec fn holds_object(m: ModelView, object: ValueView) -> bool {
    match object {
        ValueView::Entity(id) => holds(m, id),
        _ => true,
    }
}

/// Whether all statements of a graph speak of its own entities.
pub open spec fn is_closed(m: ModelView) -> bool {
    forall|i: int|
        0 <= i < m.facts.len() ==> {
            let fact = #[trigger] m.facts[i];
            holds(m, fact.subject) && holds(m, fact.predicate) && holds_object(m, fact.object)
        }
}

/// Statements that speak of the entities of their graph are silent on new ones.
pub proof fn lemma_closed_is_silent(a: ModelView, b: ModelView)
    requires
        is_closed(a),
    ensures
        is_silent_on_new(a, b),
{
}

/// The vocabulary speaks of its own entities.
pub proof fn lemma_vocabulary_is_closed()
    ensures
        is_closed(view::vocabulary()),
{
}

/// A new blank node leaves a graph closed, and is in it.
pub proof fn lemma_blank_keeps_closed(m: ModelView)
    requires
        is_closed(m),
        m.with_blank().ids_fit(),
    ensures
        is_closed(m.with_blank()),
        holds(m.with_blank(), m.next_id()),
{
    lemma_id_at(m.names.len() as int);
}

/// To ask for an entity by its name leaves a graph closed, and gives one that is
/// in it.
pub proof fn lemma_ensure_keeps_closed(m: ModelView, name: Seq<char>)
    requires
        is_closed(m),
        m.ensure_entity(name).0.ids_fit(),
    ensures
        is_closed(m.ensure_entity(name).0),
        m.ensure_entity(name).1 is Ok ==> holds(
            m.ensure_entity(name).0,
            m.ensure_entity(name).1->Ok_0,
        ),
        m.names.len() <= m.ensure_entity(name).0.names.len(),
{
    if m.resolve(name) is Some {
        let i = choose|i: int| view::is_first_named(m.names, name, i);
        assert(view::is_first_named(m.names, name, i));
        lemma_id_at(i);
    } else if m.ensure_entity(name).1 is Ok {
        lemma_id_at(m.names.len() as int);
    }
}

/// A statement on entities of a graph leaves it closed.
pub proof fn lemma_apply_keeps_closed(
    m: ModelView,
    subject: EntityId,
    predicate: Seq<char>,
    object: ValueView,
)
    requires
        is_closed(m),
        holds(m, subject),
        holds_object(m, object),
        m.apply(subject, predicate, object).0.ids_fit(),
    ensures
        is_closed(m.apply(subject, predicate, object).0),
        m.names.len() <= m.apply(subject, predicate, object).0.names.len(),
{
    lemma_ensure_keeps_closed(m, predicate);
}

/// A statement on an entity of a graph whose object is written as text leaves the
/// graph closed.
pub proof fn lemma_apply_to_keeps_closed(
    m: ModelView,
    subject: EntityId,
    predicate: Seq<char>,
    object: Seq<char>,
)
    requires
        is_closed(m),
        holds(m, subject),
        m.apply_to(subject, predicate, object).0.ids_fit(),
    ensures
        is_closed(m.apply_to(subject, predicate, object).0),
        m.names.len() <= m.apply_to(subject, predicate, object).0.names.len(),
{
    if text::is_quoted(object) {
        lemma_apply_keeps_closed(m, subject, predicate, ValueView::Literal(text::unquoted(object)));
    } else {
        let first = m.ensure_entity(predicate);
        assert(first.0.names.len() <= m.apply_to(subject, predicate, object).0.names.len());
        lemma_ensure_keeps_closed(m, predicate);
        if first.1 is Ok {
            lemma_ensure_keeps_closed(first.0, object);
        }
    }
}

/// What is in a list with one more element.
proof fn lemma_push<T>(list: Seq<T>, last: T, x: T)
    ensures
        list.push(last).contains(x) <==> list.contains(x) || x == last,
{
    let longer = list.push(last);
    if list.contains(x) {
        let i = choose|i: int| 0 <= i < list.len() && list[i] == x;
        assert(longer[i] == x);
    }
    if x == last {
        assert(longer[list.len() as int] == x);
    }
}

/// An entity is contained in a node exactly where a statement says so.
pub proof fn lemma_children(m: ModelView, node: EntityId, child: EntityId)
    ensures
        m.children(node).contains(child) <==> m.resolve("wa2:contains"@) is Some && m.has(
            node,
            m.resolve("wa2:contains"@)->0,
            ValueView::Entity(child),
        ),
{
    if let Some(p) = m.resolve("wa2:contains"@) {
        lemma_objects(m, node, p, ValueView::Entity(child));
        lemma_entities(view::objects(m.facts, node, p), child);
    }
}

/// A statement with a named subject stands in the graph, under the entities that
/// the three names denote.
pub proof fn lemma_apply_named_then_has(
    m: ModelView,
    subject: Seq<char>,
    predicate: Seq<char>,
    object: Seq<char>,
)
    requires
        !text::is_quoted(object),
        m.apply_named(subject, predicate, object).1 is Ok,
    ensures
        ({
            let after = m.apply_named(subject, predicate, object).0;
            &&& after.resolve(subject) is Some
            &&& after.resolve(predicate) is Some
            &&& after.resolve(object) is Some
            &&& after.has(
                after.resolve(subject)->0,
                after.resolve(predicate)->0,
                ValueView::Entity(after.resolve(object)->0),
            )
        }),
{
    let first = m.ensure_entity(subject);
    lemma_ensure_then_resolve(m, subject);
    let id = first.1->Ok_0;
    let after = first.0.apply_to(id, predicate, object).0;
    lemma_apply_to_extends(first.0, id, predicate, object);
    lemma_apply_to_then_has(first.0, id, predicate, object);
    lemma_resolve_stable(first.0, after, subject);
}

// ---------------------------------------------------------------------------
// What is read from a graph
// ---------------------------------------------------------------------------

/// A name denotes the first entity that bears it.
pub proof fn lemma_resolve_finds_first(m: ModelView, name: Seq<char>, i: int)
    requires
        m.ids_fit(),
        0 <= i < m.names.len(),
        m.names[i] == Some(name),
        forall|j: int| 0 <= j < i ==> m.names[j] != Some(name),
    ensures
        m.resolve(name) == Some(EntityId(i as u32)),
{
    assert(view::is_first_named(m.names, name, i));
    lemma_first_unique(m, name, i);
    lemma_id_at(i);
}

/// A name denotes something exactly where some entity bears it.
pub proof fn lemma_resolve_needs_bearer(m: ModelView, name: Seq<char>)
    ensures
        m.resolve(name) is Some <==> m.names.contains(Some(name)),
{
    if m.names.contains(Some(name)) {
        let n = choose|n: int| 0 <= n < m.names.len() && m.names[n] == Some(name);
        lemma_named_resolves(m, name, n);
    }
    if m.resolve(name) is Some {
        let i = choose|i: int| view::is_first_named(m.names, name, i);
        assert(view::is_first_named(m.names, name, i));
        assert(m.names[i] == Some(name));
    }
}

/// An entity is called by the name that it bears, and that name leads back to it
/// where no other entity bears it too.
pub proof fn lemma_name_leads_back(m: ModelView, id: EntityId)
    requires
        m.ids_fit(),
        id.0 < m.names.len(),
        m.names[id.0 as int] is Some,
        forall|j: int| 0 <= j < id.0 ==> #[trigger] m.names[j] != m.names[id.0 as int],
    ensures
        Some(m.name_of(id)) == m.names[id.0 as int],
        m.resolve(m.name_of(id)) == Some(id),
        !m.is_blank(id),
{
    lemma_resolve_finds_first(m, m.name_of(id), id.0 as int);
}

/// The objects under a predicate, from statements in two parts, are those from the
/// first part and then those from the second.
pub proof fn lemma_objects_join(a: Seq<Fact>, b: Seq<Fact>, subject: EntityId, predicate: EntityId)
    ensures
        view::objects(a + b, subject, predicate) == view::objects(a, subject, predicate)
            + view::objects(b, subject, predicate),
        view::own_literals(a + b, subject) == view::own_literals(a, subject)
            + view::own_literals(b, subject),
    decreases b.len(),
{
    if b.len() == 0 {
        assert(a + b =~= a);
        assert(view::objects(b, subject, predicate) =~= seq![]);
        assert(view::own_literals(b, subject) =~= seq![]);
    } else {
        lemma_objects_join(a, b.drop_last(), subject, predicate);
        assert((a + b).drop_last() =~= a + b.drop_last());
        assert((a + b).last() == b.last());
        assert(view::objects(a + b, subject, predicate) =~= view::objects(a, subject, predicate)
            + view::objects(b, subject, predicate));
        assert(view::own_literals(a + b, subject) =~= view::own_literals(a, subject)
            + view::own_literals(b, subject));
    }
}

/// A single statement gives its subject its object under its predicate, and
/// nothing else anything.
pub proof fn lemma_objects_of_one(fact: Fact, subject: EntityId, predicate: EntityId)
    ensures
        fact.subject == subject && fact.predicate == predicate ==> view::objects(
            seq![fact],
            subject,
            predicate,
        ) == seq![fact.object],
        fact.subject != subject || fact.predicate != predicate ==> view::objects(
            seq![fact],
            subject,
            predicate,
        ).len() == 0,
{
    reveal_with_fuel(view::objects, 2);
    assert(seq![fact].drop_last() =~= seq![]);
    assert(view::objects(seq![fact], subject, predicate) =~= if fact.subject == subject
        && fact.predicate == predicate {
        seq![fact.object]
    } else {
        seq![]
    });
}

/// The entities and the literals among objects in two parts are those of the first
/// part and then those of the second; each object is one or the other.
pub proof fn lemma_kinds_join(a: Seq<ValueView>, b: Seq<ValueView>)
    ensures
        view::entities_of(a + b) == view::entities_of(a) + view::entities_of(b),
        view::literals_of(a + b) == view::literals_of(a) + view::literals_of(b),
        view::entities_of(a).len() + view::literals_of(a).len() <= a.len(),
    decreases b.len(), a.len(),
{
    if b.len() == 0 {
        assert(a + b =~= a);
        assert(view::entities_of(b) =~= seq![]);
        assert(view::literals_of(b) =~= seq![]);
        if a.len() > 0 {
            lemma_kinds_join(a.drop_last(), b);
        }
    } else {
        lemma_kinds_join(a, b.drop_last());
        assert((a + b).drop_last() =~= a + b.drop_last());
        assert((a + b).last() == b.last());
        assert(view::entities_of(a + b) =~= view::entities_of(a) + view::entities_of(b));
        assert(view::literals_of(a + b) =~= view::literals_of(a) + view::literals_of(b));
    }
}

/// An object is a literal among the literals exactly where it is one.
pub proof fn lemma_literals(values: Seq<ValueView>, s: Seq<char>)
    ensures
        view::literals_of(values).contains(s) <==> values.contains(ValueView::Literal(s)),
    decreases values.len(),
{
    if values.len() > 0 {
        let rest = values.drop_last();
        let last = values.last();
        lemma_literals(rest, s);
        lemma_push(rest, last, ValueView::Literal(s));
        assert(values =~= rest.push(last));
        if let ValueView::Literal(other) = last {
            lemma_push(view::literals_of(rest), other, s);
        }
    }
}

/// A text is among a node's own literals exactly where some statement gives it to
/// the node, under whatever predicate.
pub proof fn lemma_own_literals(m: ModelView, node: EntityId, s: Seq<char>)
    ensures
        view::own_literals(m.facts, node).contains(s) <==> exists|p: EntityId| #[trigger]
            m.has(node, p, ValueView::Literal(s)),
{
    lemma_own_literals_of(m.facts, node, s);
    if view::own_literals(m.facts, node).contains(s) {
        let i = choose|i: int| 0 <= i < m.facts.len() && gives_text(#[trigger] m.facts[i], node, s);
        assert(m.facts[i] == Fact {
            subject: node,
            predicate: m.facts[i].predicate,
            object: ValueView::Literal(s),
        });
        assert(m.has(node, m.facts[i].predicate, ValueView::Literal(s)));
    }
    if exists|p: EntityId| #[trigger] m.has(node, p, ValueView::Literal(s)) {
        let p = choose|p: EntityId| #[trigger] m.has(node, p, ValueView::Literal(s));
        let fact = Fact { subject: node, predicate: p, object: ValueView::Literal(s) };
        let i = choose|i: int| 0 <= i < m.facts.len() && m.facts[i] == fact;
        assert(gives_text(m.facts[i], node, s));
    }
}

spec fn gives_text(fact: Fact, node: EntityId, s: Seq<char>) -> bool {
    fact.subject == node && fact.object == ValueView::Literal(s)
}

proof fn lemma_own_literals_of(facts: Seq<Fact>, node: EntityId, s: Seq<char>)
    ensures
        view::own_literals(facts, node).contains(s) <==> exists|i: int|
            0 <= i < facts.len() && gives_text(#[trigger] facts[i], node, s),
    decreases facts.len(),
{
    if facts.len() > 0 {
        let rest = facts.drop_last();
        lemma_own_literals_of(rest, node, s);
        let before = view::own_literals(rest, node);
        if let ValueView::Literal(t) = facts.last().object {
            if facts.last().subject == node {
                lemma_push(before, t, s);
            }
        }
        if gives_text(facts.last(), node, s) {
            assert(gives_text(facts[facts.len() - 1], node, s));
        }
        if before.contains(s) {
            let i = choose|i: int| 0 <= i < rest.len() && gives_text(#[trigger] rest[i], node, s);
            assert(gives_text(facts[i], node, s));
        }
        if exists|i: int| 0 <= i < facts.len() && gives_text(#[trigger] facts[i], node, s) {
            let i = choose|i: int|
                0 <= i < facts.len() && gives_text(#[trigger] facts[i], node, s);
            if i < rest.len() {
                assert(gives_text(rest[i], node, s));
            }
        }
    }
}

/// Whether a statement gives a node a literal under a predicate.
pub open spec fn gives_literal(fact: Fact, node: EntityId, predicate: EntityId) -> bool {
    fact.subject == node && fact.predicate == predicate && fact.object is Literal
}

/// Whether a statement links a node to an entity under a predicate.
pub open spec fn gives_entity(fact: Fact, node: EntityId, predicate: EntityId) -> bool {
    fact.subject == node && fact.predicate == predicate && fact.object is Entity
}

proof fn lemma_first_literal(facts: Seq<Fact>, node: EntityId, p: EntityId, i: int)
    requires
        0 <= i < facts.len(),
        gives_literal(facts[i], node, p),
        forall|j: int| 0 <= j < i ==> !gives_literal(#[trigger] facts[j], node, p),
    ensures
        view::literals_of(view::objects(facts, node, p)).len() > 0,
        ValueView::Literal(view::literals_of(view::objects(facts, node, p))[0]) == facts[i].object,
    decreases facts.len(),
{
    let rest = facts.drop_last();
    let before = view::objects(rest, node, p);
    let last = facts.last();
    if last.subject == node && last.predicate == p {
        assert(before.push(last.object).drop_last() =~= before);
    }
    if i < rest.len() {
        assert forall|j: int| 0 <= j < i implies !gives_literal(#[trigger] rest[j], node, p) by {
            assert(rest[j] == facts[j]);
        }
        lemma_first_literal(rest, node, p, i);
    } else {
        assert forall|j: int| 0 <= j < rest.len() implies !gives_literal(
            #[trigger] rest[j],
            node,
            p,
        ) by {
            assert(rest[j] == facts[j]);
        }
        lemma_no_literal(rest, node, p);
    }
}

proof fn lemma_no_literal(facts: Seq<Fact>, node: EntityId, p: EntityId)
    requires
        forall|j: int| 0 <= j < facts.len() ==> !gives_literal(#[trigger] facts[j], node, p),
    ensures
        view::literals_of(view::objects(facts, node, p)).len() == 0,
    decreases facts.len(),
{
    if facts.len() > 0 {
        let rest = facts.drop_last();
        assert forall|j: int| 0 <= j < rest.len() implies !gives_literal(
            #[trigger] rest[j],
            node,
            p,
        ) by {
            assert(rest[j] == facts[j]);
        }
        lemma_no_literal(rest, node, p);
        let before = view::objects(rest, node, p);
        let last = facts.last();
        assert(!gives_literal(facts[facts.len() - 1], node, p));
        if last.subject == node && last.predicate == p {
            assert(before.push(last.object).drop_last() =~= before);
        }
    }
}

/// The literal of a node under a name is the one stated first; there is none
/// exactly where none is stated.
pub proof fn lemma_literal_is_first(m: ModelView, node: EntityId, name: Seq<char>)
    ensures
        m.literal(node, name) is None <==> (m.resolve(name) is None || forall|i: int|
            0 <= i < m.facts.len() ==> !gives_literal(
                #[trigger] m.facts[i],
                node,
                m.resolve(name)->0,
            )),
        forall|i: int|
            #![trigger m.facts[i]]
            m.resolve(name) is Some && 0 <= i < m.facts.len() && gives_literal(
                m.facts[i],
                node,
                m.resolve(name)->0,
            ) && (forall|j: int|
                0 <= j < i ==> !gives_literal(#[trigger] m.facts[j], node, m.resolve(name)->0))
                ==> m.literal(node, name) is Some && m.facts[i].object == ValueView::Literal(
                m.literal(node, name)->0,
            ),
{
    if let Some(p) = m.resolve(name) {
        if exists|i: int| 0 <= i < m.facts.len() && gives_literal(#[trigger] m.facts[i], node, p) {
            let i = choose|i: int|
                0 <= i < m.facts.len() && gives_literal(#[trigger] m.facts[i], node, p);
            let k = lemma_least_literal(m.facts, node, p, i);
            lemma_first_literal(m.facts, node, p, k);
            assert forall|i: int|
                #![trigger m.facts[i]]
                0 <= i < m.facts.len() && gives_literal(m.facts[i], node, p) && (forall|j: int|
                    0 <= j < i ==> !gives_literal(#[trigger] m.facts[j], node, p)) implies m.literal(
                node,
                name,
            ) is Some && m.facts[i].object == ValueView::Literal(m.literal(node, name)->0) by {
                lemma_first_literal(m.facts, node, p, i);
            }
        } else {
            lemma_no_literal(m.facts, node, p);
        }
    }
}

proof fn lemma_least_literal(facts: Seq<Fact>, node: EntityId, p: EntityId, i: int) -> (k: int)
    requires
        0 <= i < facts.len(),
        gives_literal(facts[i], node, p),
    ensures
        0 <= k <= i,
        gives_literal(facts[k], node, p),
        forall|j: int| 0 <= j < k ==> !gives_literal(#[trigger] facts[j], node, p),
    decreases i,
{
    if exists|j: int| 0 <= j < i && gives_literal(#[trigger] facts[j], node, p) {
        let j = choose|j: int| 0 <= j < i && gives_literal(#[trigger] facts[j], node, p);
        lemma_least_literal(facts, node, p, j)
    } else {
        i
    }
}

proof fn lemma_first_entity(facts: Seq<Fact>, node: EntityId, p: EntityId, i: int)
    requires
        0 <= i < facts.len(),
        gives_entity(facts[i], node, p),
        forall|j: int| 0 <= j < i ==> !gives_entity(#[trigger] facts[j], node, p),
    ensures
        view::entities_of(view::objects(facts, node, p)).len() > 0,
        ValueView::Entity(view::entities_of(view::objects(facts, node, p))[0]) == facts[i].object,
    decreases facts.len(),
{
    let rest = facts.drop_last();
    let before = view::objects(rest, node, p);
    let last = facts.last();
    if last.subject == node && last.predicate == p {
        assert(before.push(last.object).drop_last() =~= before);
    }
    if i < rest.len() {
        assert forall|j: int| 0 <= j < i implies !gives_entity(#[trigger] rest[j], node, p) by {
            assert(rest[j] == facts[j]);
        }
        lemma_first_entity(rest, node, p, i);
    } else {
        assert forall|j: int| 0 <= j < rest.len() implies !gives_entity(
            #[trigger] rest[j],
            node,
            p,
        ) by {
            assert(rest[j] == facts[j]);
        }
        lemma_no_entity(rest, node, p);
    }
}

proof fn lemma_no_entity(facts: Seq<Fact>, node: EntityId, p: EntityId)
    requires
        forall|j: int| 0 <= j < facts.len() ==> !gives_entity(#[trigger] facts[j], node, p),
    ensures
        view::entities_of(view::objects(facts, node, p)).len() == 0,
    decreases facts.len(),
{
    if facts.len() > 0 {
        let rest = facts.drop_last();
        assert forall|j: int| 0 <= j < rest.len() implies !gives_entity(
            #[trigger] rest[j],
            node,
            p,
        ) by {
            assert(rest[j] == facts[j]);
        }
        lemma_no_entity(rest, node, p);
        let before = view::objects(rest, node, p);
        let last = facts.last();
        assert(!gives_entity(facts[facts.len() - 1], node, p));
        if last.subject == node && last.predicate == p {
            assert(before.push(last.object).drop_last() =~= before);
        }
    }
}

/// The entity that a node is linked to under a name is the one linked first; there
/// is none exactly where none is linked.
pub proof fn lemma_linked_is_first(m: ModelView, node: EntityId, name: Seq<char>)
    ensures
        m.linked(node, name) is None <==> (m.resolve(name) is None || forall|i: int|
            0 <= i < m.facts.len() ==> !gives_entity(
                #[trigger] m.facts[i],
                node,
                m.resolve(name)->0,
            )),
        forall|i: int|
            #![trigger m.facts[i]]
            m.resolve(name) is Some && 0 <= i < m.facts.len() && gives_entity(
                m.facts[i],
                node,
                m.resolve(name)->0,
            ) && (forall|j: int|
                0 <= j < i ==> !gives_entity(#[trigger] m.facts[j], node, m.resolve(name)->0))
                ==> m.linked(node, name) is Some && m.facts[i].object == ValueView::Entity(
                m.linked(node, name)->0,
            ),
{
    if let Some(p) = m.resolve(name) {
        if exists|i: int| 0 <= i < m.facts.len() && gives_entity(#[trigger] m.facts[i], node, p) {
            let i = choose|i: int|
                0 <= i < m.facts.len() && gives_entity(#[trigger] m.facts[i], node, p);
            let k = lemma_least_entity(m.facts, node, p, i);
            lemma_first_entity(m.facts, node, p, k);
            assert forall|i: int|
                #![trigger m.facts[i]]
                0 <= i < m.facts.len() && gives_entity(m.facts[i], node, p) && (forall|j: int|
                    0 <= j < i ==> !gives_entity(#[trigger] m.facts[j], node, p)) implies m.linked(
                node,
                name,
            ) is Some && m.facts[i].object == ValueView::Entity(m.linked(node, name)->0) by {
                lemma_first_entity(m.facts, node, p, i);
            }
        } else {
            lemma_no_entity(m.facts, node, p);
        }
    }
}

proof fn lemma_least_entity(facts: Seq<Fact>, node: EntityId, p: EntityId, i: int) -> (k: int)
    requires
        0 <= i < facts.len(),
        gives_entity(facts[i], node, p),
    ensures
        0 <= k <= i,
        gives_entity(facts[k], node, p),
        forall|j: int| 0 <= j < k ==> !gives_entity(#[trigger] facts[j], node, p),
    decreases i,
{
    if exists|j: int| 0 <= j < i && gives_entity(#[trigger] facts[j], node, p) {
        let j = choose|j: int| 0 <= j < i && gives_entity(#[trigger] facts[j], node, p);
        lemma_least_entity(facts, node, p, j)
    } else {
        i
    }
}

/// An entity is of a type exactly where a statement says so.
pub proof fn lemma_types(m: ModelView, node: EntityId, kind: EntityId)
    ensures
        m.types(node).contains(kind) <==> m.has_type(node, kind),
        m.has_type(node, kind) <==> m.resolve("wa2:type"@) is Some && m.has(
            node,
            m.resolve("wa2:type"@)->0,
            ValueView::Entity(kind),
        ),
{
    if let Some(p) = m.resolve("wa2:type"@) {
        lemma_objects(m, node, p, ValueView::Entity(kind));
        lemma_entities(view::objects(m.facts, node, p), kind);
    }
}

// ---------------------------------------------------------------------------
// Places in the source
// ---------------------------------------------------------------------------

/// Whether a position does not come after another one.
pub open spec fn not_after(a: crate::model::Position, b: crate::model::Position) -> bool {
    a.line < b.line || (a.line == b.line && a.character <= b.character)
}

/// A range holds a position exactly where it lies between the ends, line before
/// character.
pub proof fn lemma_range_holds_between(range: crate::model::Range, at: crate::model::Position)
    ensures
        view::range_holds(range, at.line, at.character) <==> not_after(range.start, at)
            && not_after(at, range.end),
{
}

/// The range of an entity is the one recorded last; there is none exactly where
/// none was recorded.
pub proof fn lemma_range_recorded_last(
    sources: Seq<(EntityId, crate::model::Range)>,
    entity: EntityId,
)
    ensures
        view::last_range(sources, entity) is None <==> forall|i: int|
            0 <= i < sources.len() ==> (#[trigger] sources[i]).0 != entity,
        forall|i: int|
            #![trigger sources[i]]
            0 <= i < sources.len() && sources[i].0 == entity && (forall|j: int|
                i < j < sources.len() ==> (#[trigger] sources[j]).0 != entity) ==> view::last_range(
                sources,
                entity,
            ) == Some(sources[i].1),
    decreases sources.len(),
{
    if sources.len() > 0 {
        let rest = sources.drop_last();
        lemma_range_recorded_last(rest, entity);
        assert(sources[sources.len() - 1] == sources.last());
        assert(forall|i: int| 0 <= i < rest.len() ==> #[trigger] rest[i] == sources[i]);
        assert forall|i: int|
            #![trigger sources[i]]
            0 <= i < sources.len() && sources[i].0 == entity && (forall|j: int|
                i < j < sources.len() ==> (#[trigger] sources[j]).0 != entity) implies view::last_range(
            sources,
            entity,
        ) == Some(sources[i].1) by {
            if i < rest.len() {
                assert(sources[sources.len() - 1].0 != entity);
                assert(rest[i].0 == entity);
                assert forall|j: int| i < j < rest.len() implies (#[trigger] rest[j]).0 != entity by {
                    assert(sources[j].0 != entity);
                }
            }
        }
        if view::last_range(sources, entity) is None {
            assert forall|i: int| 0 <= i < sources.len() implies (#[trigger] sources[i]).0
                != entity by {
                if i < rest.len() {
                    assert(rest[i].0 != entity);
                }
            }
        } else if sources.last().0 != entity {
            let i = choose|i: int| 0 <= i < rest.len() && (#[trigger] rest[i]).0 == entity;
            assert(sources[i].0 == entity);
        }
    }
}

/// What stands at a position is the entity recorded last with a range that holds
/// it; nothing stands there exactly where no range holds it.
pub proof fn lemma_entity_recorded_last(
    sources: Seq<(EntityId, crate::model::Range)>,
    line: u32,
    character: u32,
)
    ensures
        view::entity_at(sources, line, character) is None <==> forall|i: int|
            0 <= i < sources.len() ==> !view::range_holds(
                (#[trigger] sources[i]).1,
                line,
                character,
            ),
        forall|i: int|
            #![trigger sources[i]]
            0 <= i < sources.len() && view::range_holds(sources[i].1, line, character) && (forall|
                j: int,
            |
                i < j < sources.len() ==> !view::range_holds(
                    (#[trigger] sources[j]).1,
                    line,
                    character,
                )) ==> view::entity_at(sources, line, character) == Some(sources[i].0),
    decreases sources.len(),
{
    if sources.len() > 0 {
        let rest = sources.drop_last();
        lemma_entity_recorded_last(rest, line, character);
        assert(sources[sources.len() - 1] == sources.last());
        assert(forall|i: int| 0 <= i < rest.len() ==> #[trigger] rest[i] == sources[i]);
        assert forall|i: int|
            #![trigger sources[i]]
            0 <= i < sources.len() && view::range_holds(sources[i].1, line, character) && (forall|
                j: int,
            |
                i < j < sources.len() ==> !view::range_holds(
                    (#[trigger] sources[j]).1,
                    line,
                    character,
                )) implies view::entity_at(sources, line, character) == Some(sources[i].0) by {
            if i < rest.len() {
                assert(!view::range_holds(sources[sources.len() - 1].1, line, character));
                assert(view::range_holds(rest[i].1, line, character));
                assert forall|j: int| i < j < rest.len() implies !view::range_holds(
                    (#[trigger] rest[j]).1,
                    line,
                    character,
                ) by {
                    assert(!view::range_holds(sources[j].1, line, character));
                }
            }
        }
        if view::entity_at(sources, line, character) is None {
            assert forall|i: int| 0 <= i < sources.len() implies !view::range_holds(
                (#[trigger] sources[i]).1,
                line,
                character,
            ) by {
                if i < rest.len() {
                    assert(!view::range_holds(rest[i].1, line, character));
                }
            }
        } else if !view::range_holds(sources.last().1, line, character) {
            let i = choose|i: int|
                0 <= i < rest.len() && view::range_holds((#[trigger] rest[i]).1, line, character);
            assert(view::range_holds(sources[i].1, line, character));
        }
    }
}

// ---------------------------------------------------------------------------
// What a change adds
// ---------------------------------------------------------------------------

/// To ask for an entity makes no statement, and adds at most the name asked for.
pub proof fn lemma_ensure_adds_name_only(m: ModelView, name: Seq<char>)
    ensures
        ({
            let after = m.ensure_entity(name);
            &&& after.0.facts == m.facts
            &&& after.0.namespaces == m.namespaces
            &&& after.0.names == m.names || after.0.names == m.names.push(Some(name))
            &&& after.1 is Ok && !m.names.contains(Some(name)) ==> after.0.names == m.names.push(
                Some(name),
            )
            &&& m.names.contains(Some(name)) ==> after.0.names == m.names && after.1 is Ok
            &&& after.1 is Err <==> !m.names.contains(Some(name)) && text::namespace_part(
                name,
            ) is Some && !m.namespaces.contains(text::namespace_part(name)->0)
        }),
{
    lemma_resolve_needs_bearer(m, name);
}

/// A statement that was made is the only new one, and what was stated stays.
pub proof fn lemma_apply_adds_one(
    m: ModelView,
    subject: EntityId,
    predicate: Seq<char>,
    object: ValueView,
    fact: Fact,
)
    requires
        m.apply(subject, predicate, object).1 is Ok,
    ensures
        ({
            let after = m.apply(subject, predicate, object).0;
            after.facts.contains(fact) <==> m.facts.contains(fact) || (after.resolve(predicate)
                is Some && fact == Fact { subject, predicate: after.resolve(predicate)->0, object })
        }),
{
    lemma_apply_then_has(m, subject, predicate, object);
    lemma_ensure_then_resolve(m, predicate);
    let ensured = m.ensure_entity(predicate);
    let made = Fact { subject, predicate: ensured.1->Ok_0, object };
    assert(ensured.0.with_fact(made).resolve(predicate) == ensured.0.resolve(predicate));
    lemma_push(ensured.0.facts, made, fact);
}

/// A quoted object is stated as a literal without its quotes; any other as the
/// entity that it names.
pub proof fn lemma_apply_to_states_object(
    m: ModelView,
    subject: EntityId,
    predicate: Seq<char>,
    object: Seq<char>,
    fact: Fact,
)
    requires
        m.apply_to(subject, predicate, object).1 is Ok,
    ensures
        ({
            let after = m.apply_to(subject, predicate, object).0;
            let quoted = object.len() >= 2 && object[0] == '"' && object.last() == '"';
            &&& after.resolve(predicate) is Some
            &&& quoted ==> (after.facts.contains(fact) <==> m.facts.contains(fact) || fact == Fact {
                subject,
                predicate: after.resolve(predicate)->0,
                object: ValueView::Literal(object.subrange(1, object.len() - 1)),
            })
            &&& !text::is_quoted(object) ==> after.resolve(object) is Some && (
            after.facts.contains(fact) <==> m.facts.contains(fact) || fact == Fact {
                subject,
                predicate: after.resolve(predicate)->0,
                object: ValueView::Entity(after.resolve(object)->0),
            })
        }),
{
    let after = m.apply_to(subject, predicate, object).0;
    if text::is_quoted(object) {
        let value = ValueView::Literal(text::unquoted(object));
        lemma_apply_then_has(m, subject, predicate, value);
        lemma_apply_adds_one(m, subject, predicate, value, fact);
    } else {
        lemma_apply_to_then_has(m, subject, predicate, object);
        let first = m.ensure_entity(predicate);
        lemma_ensure_then_resolve(m, predicate);
        let second = first.0.ensure_entity(object);
        lemma_ensure_then_resolve(first.0, object);
        lemma_resolve_stable(first.0, second.0, predicate);
        let made = Fact {
            subject,
            predicate: first.1->Ok_0,
            object: ValueView::Entity(second.1->Ok_0),
        };
        assert(after == second.0.with_fact(made));
        assert(after.resolve(predicate) == second.0.resolve(predicate));
        assert(after.resolve(object) == second.0.resolve(object));
        lemma_push(second.0.facts, made, fact);
    }
}

/// A namespace is registered unless the one that it stands in is not; nothing else
/// changes.
pub proof fn lemma_namespace_is_registered(m: ModelView, name: Seq<char>, other: Seq<char>)
    ensures
        ({
            let after = m.ensure_namespace(name);
            &&& after.0.names == m.names && after.0.facts == m.facts && after.0.root == m.root
            &&& after.1 is Ok ==> after.0.namespaces.contains(name)
            &&& other != name || after.1 is Err ==> (after.0.namespaces.contains(other)
                <==> m.namespaces.contains(other))
            &&& after.1 is Err <==> !m.namespaces.contains(name) && text::namespace_part(name)
                is Some && !m.namespaces.contains(text::namespace_part(name)->0)
        }),
{
    lemma_push(m.namespaces, name, other);
    lemma_push(m.namespaces, name, name);
}

/// The statements on a subject are found at their places, all of them, in order.
pub proof fn lemma_positions(facts: Seq<Fact>, subject: EntityId, k: int)
    ensures
        view::positions_of(facts, subject).contains(k) <==> 0 <= k < facts.len()
            && facts[k].subject == subject,
        forall|i: int, j: int|
            0 <= i < j < view::positions_of(facts, subject).len() ==> (#[trigger] view::positions_of(
                facts,
                subject,
            )[i]) < (#[trigger] view::positions_of(facts, subject)[j]),
    decreases facts.len(),
{
    let all = view::positions_of(facts, subject);
    if facts.len() > 0 {
        let rest = facts.drop_last();
        let before = view::positions_of(rest, subject);
        lemma_positions(rest, subject, k);
        lemma_push(before, facts.len() - 1, k);
        assert(forall|i: int| 0 <= i < rest.len() ==> #[trigger] rest[i] == facts[i]);
        assert forall|i: int, j: int| 0 <= i < j < all.len() implies (#[trigger] all[i]) < (
        #[trigger] all[j]) by {
            if j < before.len() {
                assert(before[i] < before[j]);
            } else {
                assert(before.contains(before[i]));
                lemma_positions(rest, subject, before[i]);
            }
        }
    }
}

} // verus!
