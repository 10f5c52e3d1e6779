//! What findings say, and that all of them are collected.

use vstd::prelude::*;

use crate::kernel::analysis::{self, AssertSeverity, FailureView};
use crate::kernel::ast::Modal;
use crate::kernel::laws;
use crate::kernel::query_laws;
use crate::kernel::semantics;
use crate::model::laws as graph;
use crate::model::view::{self, Change, Fact, ModelView, ValueView};
use crate::model::EntityId;
use crate::text;

verus! {

// ---------------------------------------------------------------------------
// What a statement on one node leaves
// ---------------------------------------------------------------------------

proof fn lemma_no_objects(facts: Seq<Fact>, node: EntityId, x: EntityId, p: EntityId)
    requires
        forall|i: int| 0 <= i < facts.len() ==> (#[trigger] facts[i]).subject == node,
        x != node,
    ensures
        view::objects(facts, x, p).len() == 0,
    decreases facts.len(),
{
    if facts.len() > 0 {
        let rest = facts.drop_last();
        assert forall|i: int| 0 <= i < rest.len() implies (#[trigger] rest[i]).subject == node by {
            assert(rest[i] == facts[i]);
        }
        lemma_no_objects(rest, node, x, p);
        assert(facts[facts.len() - 1].subject == node);
    }
}

/// Statements on one node leave what is said of every other entity.
pub proof fn lemma_other_objects_stay(
    a: ModelView,
    b: ModelView,
    node: EntityId,
    x: EntityId,
    name: Seq<char>,
)
    requires
        laws::adds_on(a, b, node),
        b.ids_fit(),
        graph::is_silent_on_new(a, b),
        x != node,
    ensures
        b.named_objects(x, name) == a.named_objects(x, name),
{
    laws::lemma_name_in_extension(a, b, name);
    if let Some(p) = b.resolve(name) {
        let more = b.facts.skip(a.facts.len() as int);
        assert(b.facts =~= a.facts + more) by {
            reveal(graph::extends);
        }
        assert forall|i: int| 0 <= i < more.len() implies (#[trigger] more[i]).subject == node by {
            assert(more[i] == b.facts[a.facts.len() + i]);
        }
        lemma_no_objects(more, node, x, p);
        graph::lemma_objects_join(a.facts, more, x, p);
        assert(view::objects(b.facts, x, p) =~= view::objects(a.facts, x, p));
        if a.resolve(name) is None {
            let old = view::objects(a.facts, x, p);
            if old.len() > 0 {
                assert(old.contains(old[0]));
                graph::lemma_objects(a, x, p, old[0]);
                laws::lemma_unsaid(a, b, p, x, p, old[0]);
            }
            assert(old =~= seq![]);
        }
    } else if a.resolve(name) is Some {
        graph::lemma_resolve_stable(a, b, name);
    }
}

/// Statements on one node leave what every other finding says.
pub proof fn lemma_other_finding_stays(a: ModelView, b: ModelView, node: EntityId, x: EntityId)
    requires
        laws::adds_on(a, b, node),
        b.ids_fit(),
        graph::is_silent_on_new(a, b),
        x != node,
    ensures
        analysis::failure_at(b, x) == analysis::failure_at(a, x),
{
    lemma_other_objects_stay(a, b, node, x, "core:assertion"@);
    lemma_other_objects_stay(a, b, node, x, "core:subject"@);
    lemma_other_objects_stay(a, b, node, x, "core:area"@);
    lemma_other_objects_stay(a, b, node, x, "core:message"@);
    lemma_other_severity_stays(a, b, node, x, "core:Warning"@);
    lemma_other_severity_stays(a, b, node, x, "core:Info"@);
}

proof fn lemma_other_severity_stays(
    a: ModelView,
    b: ModelView,
    node: EntityId,
    x: EntityId,
    severity: Seq<char>,
)
    requires
        laws::adds_on(a, b, node),
        b.ids_fit(),
        graph::is_silent_on_new(a, b),
        x != node,
    ensures
        analysis::has_severity(b, x, severity) == analysis::has_severity(a, x, severity),
{
    let name = "core:severity"@;
    lemma_other_objects_stay(a, b, node, x, name);
    laws::lemma_name_in_extension(a, b, name);
    laws::lemma_name_in_extension(a, b, severity);
    if let Some(p) = b.resolve(name) {
        if let Some(v) = b.resolve(severity) {
            graph::lemma_objects(b, x, p, ValueView::Entity(v));
            graph::lemma_objects(a, x, p, ValueView::Entity(v));
            if a.resolve(severity) is None {
                laws::lemma_unsaid(a, b, v, x, p, ValueView::Entity(v));
            }
            if a.resolve(name) is None {
                laws::lemma_unsaid(a, b, p, x, p, ValueView::Entity(v));
            }
        }
    }
}

proof fn lemma_other_type_stays(
    a: ModelView,
    b: ModelView,
    node: EntityId,
    x: EntityId,
    kind: EntityId,
)
    requires
        laws::adds_on(a, b, node),
        b.ids_fit(),
        graph::is_silent_on_new(a, b),
        x != node,
    ensures
        b.has_type(x, kind) == a.has_type(x, kind),
{
    let name = "wa2:type"@;
    lemma_other_objects_stay(a, b, node, x, name);
    laws::lemma_name_in_extension(a, b, name);
    if let Some(p) = b.resolve(name) {
        graph::lemma_objects(b, x, p, ValueView::Entity(kind));
        graph::lemma_objects(a, x, p, ValueView::Entity(kind));
        if a.resolve(name) is None {
            laws::lemma_unsaid(a, b, p, x, p, ValueView::Entity(kind));
        }
    }
}

// ---------------------------------------------------------------------------
// What is said of a node under a name
// ---------------------------------------------------------------------------

/// Whether a graph says something of a node under a name that another graph
/// denotes.
spec fn says(m: ModelView, end: ModelView, node: EntityId, name: Seq<char>, v: ValueView) -> bool {
    end.resolve(name) is Some && m.has(node, end.resolve(name)->0, v)
}

proof fn lemma_apply_says(
    m: ModelView,
    end: ModelView,
    node: EntityId,
    predicate: Seq<char>,
    object: ValueView,
)
    requires
        m.apply(node, predicate, object).1 is Ok,
        graph::extends(m.apply(node, predicate, object).0, end),
        end.ids_fit(),
    ensures
        end.resolve(predicate) is Some,
        forall|name: Seq<char>, v: ValueView| #[trigger]
            says(m.apply(node, predicate, object).0, end, node, name, v) <==> says(
                m,
                end,
                node,
                name,
                v,
            ) || (name == predicate && v == object),
{
    let after = m.apply(node, predicate, object).0;
    graph::lemma_apply_then_has(m, node, predicate, object);
    graph::lemma_resolve_stable(after, end, predicate);
    assert forall|name: Seq<char>, v: ValueView| #[trigger]
        says(after, end, node, name, v) <==> says(m, end, node, name, v) || (name == predicate && v
            == object) by {
        if let Some(p) = end.resolve(name) {
            graph::lemma_apply_adds_one(
                m,
                node,
                predicate,
                object,
                Fact { subject: node, predicate: p, object: v },
            );
            if name != predicate {
                graph::lemma_names_differ(end, name, predicate);
            }
        }
    }
}

proof fn lemma_apply_to_says(
    m: ModelView,
    end: ModelView,
    node: EntityId,
    predicate: Seq<char>,
    object: Seq<char>,
)
    requires
        m.apply_to(node, predicate, object).1 is Ok,
        !text::is_quoted(object),
        graph::extends(m.apply_to(node, predicate, object).0, end),
        end.ids_fit(),
    ensures
        end.resolve(predicate) is Some,
        end.resolve(object) is Some,
        forall|name: Seq<char>, v: ValueView| #[trigger]
            says(m.apply_to(node, predicate, object).0, end, node, name, v) <==> says(
                m,
                end,
                node,
                name,
                v,
            ) || (name == predicate && v == ValueView::Entity(end.resolve(object)->0)),
{
    let after = m.apply_to(node, predicate, object).0;
    graph::lemma_apply_to_then_has(m, node, predicate, object);
    graph::lemma_resolve_stable(after, end, predicate);
    graph::lemma_resolve_stable(after, end, object);
    assert forall|name: Seq<char>, v: ValueView| #[trigger]
        says(after, end, node, name, v) <==> says(m, end, node, name, v) || (name == predicate && v
            == ValueView::Entity(end.resolve(object)->0)) by {
        if let Some(p) = end.resolve(name) {
            graph::lemma_apply_to_states_object(
                m,
                node,
                predicate,
                object,
                Fact { subject: node, predicate: p, object: v },
            );
            if name != predicate {
                graph::lemma_names_differ(end, name, predicate);
            }
        }
    }
}

proof fn lemma_with_literal_says(
    c: Change<()>,
    end: ModelView,
    node: EntityId,
    predicate: Seq<char>,
    literal: Option<Seq<char>>,
    prefix: Seq<char>,
)
    requires
        semantics::with_literal(c, node, predicate, literal, prefix).1 is Ok,
        graph::extends(semantics::with_literal(c, node, predicate, literal, prefix).0, end),
        end.ids_fit(),
    ensures
        c.1 is Ok,
        literal is Some ==> end.resolve(predicate) is Some,
        graph::extends(c.0, end),
        forall|name: Seq<char>, v: ValueView| #[trigger]
            says(
                semantics::with_literal(c, node, predicate, literal, prefix).0,
                end,
                node,
                name,
                v,
            ) <==> says(c.0, end, node, name, v) || (literal is Some && name == predicate && v
                == ValueView::Literal(literal->0)),
{
    if let Some(s) = literal {
        lemma_apply_says(c.0, end, node, predicate, ValueView::Literal(s));
        graph::lemma_apply_then_has(c.0, node, predicate, ValueView::Literal(s));
        graph::lemma_extends_transitive(
            c.0,
            c.0.apply(node, predicate, ValueView::Literal(s)).0,
            end,
        );
    }
}

proof fn lemma_with_link_says(
    c: Change<()>,
    end: ModelView,
    node: EntityId,
    predicate: Seq<char>,
    entity: Option<EntityId>,
    prefix: Seq<char>,
)
    requires
        semantics::with_link(c, node, predicate, entity, prefix).1 is Ok,
        graph::extends(semantics::with_link(c, node, predicate, entity, prefix).0, end),
        end.ids_fit(),
    ensures
        c.1 is Ok,
        entity is Some ==> end.resolve(predicate) is Some,
        graph::extends(c.0, end),
        forall|name: Seq<char>, v: ValueView| #[trigger]
            says(
                semantics::with_link(c, node, predicate, entity, prefix).0,
                end,
                node,
                name,
                v,
            ) <==> says(c.0, end, node, name, v) || (entity is Some && name == predicate && v
                == ValueView::Entity(entity->0)),
{
    if let Some(id) = entity {
        lemma_apply_says(c.0, end, node, predicate, ValueView::Entity(id));
        graph::lemma_apply_then_has(c.0, node, predicate, ValueView::Entity(id));
        graph::lemma_extends_transitive(
            c.0,
            c.0.apply(node, predicate, ValueView::Entity(id)).0,
            end,
        );
    }
}

proof fn lemma_new_failure_says(m: ModelView, end: ModelView)
    requires
        semantics::new_failure(m).1 is Ok,
        graph::extends(semantics::new_failure(m).0, end),
        end.ids_fit(),
        graph::is_silent_on_new(m, end),
    ensures
        end.resolve("wa2:type"@) is Some,
        end.resolve("core:AssertFailure"@) is Some,
        forall|name: Seq<char>, v: ValueView| #[trigger]
            says(semantics::new_failure(m).0, end, m.next_id(), name, v) <==> name == "wa2:type"@
                && v == ValueView::Entity(end.resolve("core:AssertFailure"@)->0),
{
    let node = m.next_id();
    let blank = m.with_blank();
    laws::lemma_new_failure_adds_on(m);
    assert(m.names.len() < end.names.len()) by {
        reveal(graph::extends);
    }
    graph::lemma_id_at(m.names.len() as int);
    assert(!text::is_quoted("core:AssertFailure"@)) by {
        reveal_strlit("core:AssertFailure");
    }
    lemma_apply_to_says(blank, end, node, "wa2:type"@, "core:AssertFailure"@);
    assert forall|name: Seq<char>, v: ValueView| !#[trigger] says(blank, end, node, name, v) by {
        if let Some(p) = end.resolve(name) {
            laws::lemma_unsaid(m, end, node, node, p, v);
        }
    }
}

/// The only literal under a name is the literal under it.
proof fn lemma_literal_by_says(
    m: ModelView,
    node: EntityId,
    name: Seq<char>,
    expected: Option<Seq<char>>,
)
    requires
        expected is Some ==> m.resolve(name) is Some,
        forall|v: ValueView| #[trigger]
            says(m, m, node, name, v) <==> expected is Some && v == ValueView::Literal(expected->0),
    ensures
        m.literal(node, name) == expected,
{
    graph::lemma_literal_is_first(m, node, name);
    if let Some(p) = m.resolve(name) {
        if let Some(s) = expected {
            assert(says(m, m, node, name, ValueView::Literal(s)));
            let fact = Fact { subject: node, predicate: p, object: ValueView::Literal(s) };
            let i = choose|i: int| 0 <= i < m.facts.len() && m.facts[i] == fact;
            assert(graph::gives_literal(m.facts[i], node, p));
            let found = m.named_objects(node, name);
            let t = m.literal(node, name)->0;
            assert(view::literals_of(found).contains(t)) by {
                assert(view::literals_of(found)[0] == t);
            }
            graph::lemma_literals(found, t);
            graph::lemma_objects(m, node, p, ValueView::Literal(t));
            assert(says(m, m, node, name, ValueView::Literal(t)));
        } else if m.literal(node, name) is Some {
            let found = m.named_objects(node, name);
            let t = m.literal(node, name)->0;
            assert(view::literals_of(found).contains(t)) by {
                assert(view::literals_of(found)[0] == t);
            }
            graph::lemma_literals(found, t);
            graph::lemma_objects(m, node, p, ValueView::Literal(t));
            assert(says(m, m, node, name, ValueView::Literal(t)));
        }
    }
}

/// The only link under a name is the link under it.
proof fn lemma_linked_by_says(
    m: ModelView,
    node: EntityId,
    name: Seq<char>,
    expected: Option<EntityId>,
)
    requires
        expected is Some ==> m.resolve(name) is Some,
        forall|v: ValueView| #[trigger]
            says(m, m, node, name, v) <==> expected is Some && v == ValueView::Entity(expected->0),
    ensures
        m.linked(node, name) == expected,
{
    graph::lemma_linked_is_first(m, node, name);
    if let Some(p) = m.resolve(name) {
        if let Some(s) = expected {
            assert(says(m, m, node, name, ValueView::Entity(s)));
            let fact = Fact { subject: node, predicate: p, object: ValueView::Entity(s) };
            let i = choose|i: int| 0 <= i < m.facts.len() && m.facts[i] == fact;
            assert(graph::gives_entity(m.facts[i], node, p));
        }
        if m.linked(node, name) is Some {
            let found = m.named_objects(node, name);
            let t = m.linked(node, name)->0;
            assert(view::entities_of(found).contains(t)) by {
                assert(view::entities_of(found)[0] == t);
            }
            graph::lemma_entities(found, t);
            graph::lemma_objects(m, node, p, ValueView::Entity(t));
            assert(says(m, m, node, name, ValueView::Entity(t)));
        }
    }
}

/// The predicates of a finding are different ones.
proof fn lemma_predicates_differ()
    ensures
        "wa2:type"@ != "core:assertion"@,
        "wa2:type"@ != "core:subject"@,
        "wa2:type"@ != "core:area"@,
        "wa2:type"@ != "core:message"@,
        "wa2:type"@ != "core:severity"@,
        "core:assertion"@ != "core:subject"@,
        "core:assertion"@ != "core:area"@,
        "core:assertion"@ != "core:message"@,
        "core:assertion"@ != "core:severity"@,
        "core:subject"@ != "core:area"@,
        "core:subject"@ != "core:message"@,
        "core:subject"@ != "core:severity"@,
        "core:area"@ != "core:message"@,
        "core:area"@ != "core:severity"@,
        "core:message"@ != "core:severity"@,
        "core:Error"@ != "core:Warning"@,
        "core:Error"@ != "core:Info"@,
        "core:Warning"@ != "core:Info"@,
        !text::is_quoted("core:Error"@),
        !text::is_quoted("core:Warning"@),
        !text::is_quoted("core:Info"@),
{
    reveal_strlit("wa2:type");
    reveal_strlit("core:assertion");
    reveal_strlit("core:subject");
    reveal_strlit("core:area");
    reveal_strlit("core:message");
    reveal_strlit("core:severity");
    reveal_strlit("core:Error");
    reveal_strlit("core:Warning");
    reveal_strlit("core:Info");
    assert("wa2:type"@.len() == 8);
    assert("core:assertion"@.len() == 14);
    assert("core:subject"@.len() == 12 && "core:subject"@[5] == 's');
    assert("core:area"@.len() == 9);
    assert("core:message"@.len() == 12 && "core:message"@[5] == 'm');
    assert("core:severity"@.len() == 13);
    assert("core:Error"@.len() == 10);
    assert("core:Warning"@.len() == 12);
    assert("core:Info"@.len() == 9);
}

// ---------------------------------------------------------------------------
// Findings read back
// ---------------------------------------------------------------------------

/// How grave an unmet obligation is.
pub open spec fn gravity(modal: Modal) -> AssertSeverity {
    match modal {
        Modal::Must => AssertSeverity::Error,
        Modal::Should => AssertSeverity::Warning,
        Modal::May => AssertSeverity::Info,
    }
}

/// The word for an obligation.
pub open spec fn obligation_word(modal: Modal) -> Seq<char> {
    match modal {
        Modal::Must => "must"@,
        Modal::Should => "should"@,
        Modal::May => "may"@,
    }
}

proof fn lemma_severity_by_says(m: ModelView, node: EntityId, stated: Option<Seq<char>>)
    requires
        m.ids_fit(),
        stated is Some ==> m.resolve(stated->0) is Some && m.resolve("core:severity"@) is Some,
        stated is Some ==> stated->0 == "core:Error"@ || stated->0 == "core:Warning"@ || stated->0
            == "core:Info"@,
        forall|v: ValueView| #[trigger]
            says(m, m, node, "core:severity"@, v) <==> stated is Some && v == ValueView::Entity(
                m.resolve(stated->0)->0,
            ),
    ensures
        analysis::severity_of(m, node) == if stated == Some("core:Warning"@) {
            AssertSeverity::Warning
        } else if stated == Some("core:Info"@) {
            AssertSeverity::Info
        } else {
            AssertSeverity::Error
        },
{
    lemma_predicates_differ();
    if m.resolve("core:severity"@) is Some {
        if let Some(v) = m.resolve("core:Warning"@) {
            assert(says(m, m, node, "core:severity"@, ValueView::Entity(v)) <==> m.has(
                node,
                m.resolve("core:severity"@)->0,
                ValueView::Entity(v),
            ));
            if stated is Some && stated->0 != "core:Warning"@ {
                graph::lemma_names_differ(m, stated->0, "core:Warning"@);
            }
        }
        if let Some(v) = m.resolve("core:Info"@) {
            assert(says(m, m, node, "core:severity"@, ValueView::Entity(v)) <==> m.has(
                node,
                m.resolve("core:severity"@)->0,
                ValueView::Entity(v),
            ));
            if stated is Some && stated->0 != "core:Info"@ {
                graph::lemma_names_differ(m, stated->0, "core:Info"@);
            }
        }
    }
}

/// A finding on an unmet obligation reads back as it was made: a finding with the
/// rule and the word of the obligation in its assertion, as grave as the obligation
/// is binding, and with its subject, area and message.
pub proof fn lemma_obligation_reads_back(
    m: ModelView,
    rule: Seq<char>,
    subject: Option<EntityId>,
    area: Option<EntityId>,
    message: Option<Seq<char>>,
    modal: Modal,
)
    requires
        semantics::rich_failure(m, rule, subject, area, message, modal).1 is Ok,
        semantics::rich_failure(m, rule, subject, area, message, modal).0.ids_fit(),
        graph::is_silent_on_new(
            m,
            semantics::rich_failure(m, rule, subject, area, message, modal).0,
        ),
    ensures
        analysis::failure_at(
            semantics::rich_failure(m, rule, subject, area, message, modal).0,
            m.next_id(),
        ) == (FailureView {
            entity: m.next_id(),
            assertion: rule + ": "@ + obligation_word(modal) + " obligation not satisfied"@,
            severity: gravity(modal),
            subject,
            area,
            message,
        }),
{
    let end = semantics::rich_failure(m, rule, subject, area, message, modal).0;
    let node = m.next_id();
    let c1 = semantics::new_failure(m);
    let assertion = rule + ": "@ + semantics::modal_word(modal) + " obligation not satisfied"@;
    let p2 = "failed to set assertion: "@;
    let c2 = semantics::with_literal(c1, node, "core:assertion"@, Some(assertion), p2);
    let p3 = "failed to set subject: "@;
    let c3 = semantics::with_link(c2, node, "core:subject"@, subject, p3);
    let p4 = "failed to set area: "@;
    let c4 = semantics::with_link(c3, node, "core:area"@, area, p4);
    let p5 = "failed to set message: "@;
    let c5 = semantics::with_literal(c4, node, "core:message"@, message, p5);
    let word = semantics::severity_name(modal);
    lemma_predicates_differ();
    graph::lemma_extends_reflexive(end);
    lemma_apply_to_says(c5.0, end, node, "core:severity"@, word);
    graph::lemma_apply_to_extends(c5.0, node, "core:severity"@, word);
    lemma_with_literal_says(c4, end, node, "core:message"@, message, p5);
    lemma_with_link_says(c3, end, node, "core:area"@, area, p4);
    lemma_with_link_says(c2, end, node, "core:subject"@, subject, p3);
    lemma_with_literal_says(c1, end, node, "core:assertion"@, Some(assertion), p2);
    lemma_new_failure_says(m, end);
    lemma_literal_by_says(end, node, "core:assertion"@, Some(assertion));
    lemma_linked_by_says(end, node, "core:subject"@, subject);
    lemma_linked_by_says(end, node, "core:area"@, area);
    lemma_literal_by_says(end, node, "core:message"@, message);
    lemma_severity_by_says(end, node, Some(word));
}

/// A finding on a failed assertion reads back as it was made.
pub proof fn lemma_assertion_reads_back(
    m: ModelView,
    rule: Seq<char>,
    message: Seq<char>,
    context: Option<EntityId>,
)
    requires
        semantics::plain_failure(m, rule, message, context).1 is Ok,
        semantics::plain_failure(m, rule, message, context).0.ids_fit(),
        graph::is_silent_on_new(m, semantics::plain_failure(m, rule, message, context).0),
    ensures
        analysis::failure_at(semantics::plain_failure(m, rule, message, context).0, m.next_id())
            == (FailureView {
            entity: m.next_id(),
            assertion: rule + ": "@ + message,
            severity: AssertSeverity::Error,
            subject: context,
            area: None,
            message: None,
        }),
{
    let end = semantics::plain_failure(m, rule, message, context).0;
    let node = m.next_id();
    let c1 = semantics::new_failure(m);
    let assertion = rule + ": "@ + message;
    let p2 = "failed to set assertion message: "@;
    let c2 = semantics::with_literal(c1, node, "core:assertion"@, Some(assertion), p2);
    let p3 = "failed to link failure to subject: "@;
    lemma_predicates_differ();
    graph::lemma_extends_reflexive(end);
    lemma_with_link_says(c2, end, node, "core:subject"@, context, p3);
    lemma_with_literal_says(c1, end, node, "core:assertion"@, Some(assertion), p2);
    lemma_new_failure_says(m, end);
    lemma_literal_by_says(end, node, "core:assertion"@, Some(assertion));
    lemma_linked_by_says(end, node, "core:subject"@, context);
    lemma_linked_by_says(end, node, "core:area"@, None);
    lemma_literal_by_says(end, node, "core:message"@, None);
    lemma_severity_by_says(end, node, None);
}

// ---------------------------------------------------------------------------
// Findings collected
// ---------------------------------------------------------------------------

/// Whether an entity of a graph is a finding.
pub open spec fn is_finding(m: ModelView, id: EntityId) -> bool {
    id.0 < m.names.len() && query_laws::is_of_type(m, id, "core:AssertFailure"@)
}

proof fn lemma_collected_among(m: ModelView, kind: EntityId, n: nat)
    requires
        m.ids_fit(),
        n <= m.names.len(),
    ensures
        ({
            let list = analysis::failures_among(m, kind, n);
            &&& forall|id: EntityId|
                #![trigger m.has_type(id, kind)]
                (id.0 < n && m.has_type(id, kind)) <==> exists|i: int|
                    0 <= i < list.len() && (#[trigger] list[i]).entity == id
            &&& forall|i: int|
                0 <= i < list.len() ==> (#[trigger] list[i]) == analysis::failure_at(
                    m,
                    list[i].entity,
                ) && list[i].entity.0 < n && m.has_type(list[i].entity, kind)
            &&& forall|i: int, j: int|
                0 <= i < j < list.len() ==> (#[trigger] list[i]).entity.0 < (
                #[trigger] list[j]).entity.0
        }),
    decreases n,
{
    if n > 0 {
        let before = analysis::failures_among(m, kind, (n - 1) as nat);
        let list = analysis::failures_among(m, kind, n);
        lemma_collected_among(m, kind, (n - 1) as nat);
        graph::lemma_id_at(n - 1);
        let last = view::id_at(n - 1);
        assert forall|i: int| 0 <= i < before.len() implies #[trigger] list[i] == before[i] by {}
        assert forall|id: EntityId|
            #![trigger m.has_type(id, kind)]
            (id.0 < n && m.has_type(id, kind)) <==> exists|i: int|
                0 <= i < list.len() && (#[trigger] list[i]).entity == id by {
            if id.0 < n && m.has_type(id, kind) {
                if id.0 < n - 1 {
                    let i = choose|i: int|
                        0 <= i < before.len() && (#[trigger] before[i]).entity == id;
                    assert(list[i].entity == id);
                } else {
                    assert(id == last);
                    assert(list[before.len() as int].entity == id);
                }
            }
            if exists|i: int| 0 <= i < list.len() && (#[trigger] list[i]).entity == id {
                let i = choose|i: int| 0 <= i < list.len() && (#[trigger] list[i]).entity == id;
                if i < before.len() {
                    assert(before[i].entity == id);
                }
            }
        }
        assert forall|i: int, j: int| 0 <= i < j < list.len() implies (#[trigger] list[i]).entity.0
            < (#[trigger] list[j]).entity.0 by {
            if j < before.len() {
                assert(before[i].entity.0 < before[j].entity.0);
            } else {
                assert(before[i].entity.0 < n - 1);
            }
        }
    }
}

/// Every finding of a graph is the entity of exactly one collected finding, and
/// every collected finding is one of those, in the order of their identifiers; each
/// says what the graph says of it.
pub proof fn lemma_every_finding_is_collected(m: ModelView)
    requires
        m.ids_fit(),
    ensures
        ({
            let list = analysis::failures_in(m);
            &&& forall|id: EntityId| #[trigger]
                is_finding(m, id) <==> exists|i: int|
                    0 <= i < list.len() && (#[trigger] list[i]).entity == id
            &&& forall|i: int, j: int|
                0 <= i < j < list.len() ==> (#[trigger] list[i]).entity.0 < (
                #[trigger] list[j]).entity.0
            &&& forall|i: int|
                0 <= i < list.len() ==> says_of(m, (#[trigger] list[i]).entity, list[i])
        }),
{
    let list = analysis::failures_in(m);
    if let Some(kind) = m.resolve("core:AssertFailure"@) {
        lemma_collected_among(m, kind, m.names.len());
        assert forall|id: EntityId| #[trigger]
            is_finding(m, id) <==> exists|i: int|
                0 <= i < list.len() && (#[trigger] list[i]).entity == id by {
            graph::lemma_types(m, id, kind);
            assert(m.has_type(id, kind) <==> query_laws::is_of_type(m, id, "core:AssertFailure"@));
        }
    }
}

/// Whether a finding says of an entity what the graph says of it.
pub open spec fn says_of(m: ModelView, id: EntityId, failure: FailureView) -> bool {
    &&& failure.entity == id
    &&& m.literal(id, "core:assertion"@) is Some ==> failure.assertion == m.literal(
        id,
        "core:assertion"@,
    )->0
    &&& m.literal(id, "core:assertion"@) is None ==> failure.assertion.len() == 0
    &&& failure.subject == m.linked(id, "core:subject"@)
    &&& failure.area == m.linked(id, "core:area"@)
    &&& failure.message == m.literal(id, "core:message"@)
    &&& failure.severity is Warning <==> query_laws::is_linked_to(
        m,
        id,
        "core:severity"@,
        m.resolve("core:Warning"@),
    )
    &&& failure.severity is Info <==> query_laws::is_linked_to(
        m,
        id,
        "core:severity"@,
        m.resolve("core:Info"@),
    ) && !query_laws::is_linked_to(m, id, "core:severity"@, m.resolve("core:Warning"@))
}

proof fn lemma_collected_before_and_after(a: ModelView, b: ModelView, kind: EntityId, n: nat)
    requires
        laws::adds_on(a, b, a.next_id()),
        b.ids_fit(),
        graph::is_silent_on_new(a, b),
        a.names.len() < b.names.len(),
        n <= b.names.len(),
        b.has_type(a.next_id(), kind),
    ensures
        n <= a.names.len() ==> analysis::failures_among(b, kind, n) == analysis::failures_among(
            a,
            kind,
            n,
        ),
        n > a.names.len() ==> analysis::failures_among(b, kind, n) == analysis::failures_among(
            a,
            kind,
            a.names.len(),
        ).push(analysis::failure_at(b, a.next_id())),
    decreases n,
{
    if n > 0 {
        lemma_collected_before_and_after(a, b, kind, (n - 1) as nat);
        graph::lemma_id_at(n - 1);
        graph::lemma_id_at(a.names.len() as int);
        let id = view::id_at(n - 1);
        if n - 1 != a.names.len() {
            lemma_other_type_stays(a, b, a.next_id(), id, kind);
            lemma_other_finding_stays(a, b, a.next_id(), id);
        }
        if n - 1 > a.names.len() {
            if let Some(p) = a.resolve("wa2:type"@) {
                laws::lemma_unsaid(a, b, id, id, p, ValueView::Entity(kind));
            }
        }
    }
}

proof fn lemma_new_kind_collects_nothing(a: ModelView, b: ModelView, kind: EntityId, n: nat)
    requires
        graph::is_silent_on_new(a, b),
        a.names.len() <= kind.0 < b.names.len(),
    ensures
        analysis::failures_among(a, kind, n).len() == 0,
    decreases n,
{
    if n > 0 {
        lemma_new_kind_collects_nothing(a, b, kind, (n - 1) as nat);
        if let Some(p) = a.resolve("wa2:type"@) {
            laws::lemma_unsaid(a, b, kind, view::id_at(n - 1), p, ValueView::Entity(kind));
        }
    }
}

proof fn lemma_finding_is_appended(a: ModelView, b: ModelView)
    requires
        laws::adds_on(a, b, a.next_id()),
        b.ids_fit(),
        graph::is_silent_on_new(a, b),
        a.names.len() < b.names.len(),
        b.resolve("core:AssertFailure"@) is Some,
        b.has_type(a.next_id(), b.resolve("core:AssertFailure"@)->0),
    ensures
        analysis::failures_in(b) == analysis::failures_in(a).push(
            analysis::failure_at(b, a.next_id()),
        ),
{
    let kind = b.resolve("core:AssertFailure"@)->0;
    laws::lemma_name_in_extension(a, b, "core:AssertFailure"@);
    lemma_collected_before_and_after(a, b, kind, b.names.len());
    if a.resolve("core:AssertFailure"@) is None {
        lemma_new_kind_collects_nothing(a, b, kind, a.names.len());
        assert(analysis::failures_among(a, kind, a.names.len()) =~= seq![]);
    }
}

/// An unmet obligation adds exactly one finding to those collected, behind the
/// others, which stay as they are.
pub proof fn lemma_obligation_is_collected(
    m: ModelView,
    rule: Seq<char>,
    subject: Option<EntityId>,
    area: Option<EntityId>,
    message: Option<Seq<char>>,
    modal: Modal,
)
    requires
        semantics::rich_failure(m, rule, subject, area, message, modal).1 is Ok,
        semantics::rich_failure(m, rule, subject, area, message, modal).0.ids_fit(),
        graph::is_silent_on_new(
            m,
            semantics::rich_failure(m, rule, subject, area, message, modal).0,
        ),
    ensures
        analysis::failures_in(semantics::rich_failure(m, rule, subject, area, message, modal).0)
            == analysis::failures_in(m).push(
            FailureView {
                entity: m.next_id(),
                assertion: rule + ": "@ + obligation_word(modal) + " obligation not satisfied"@,
                severity: gravity(modal),
                subject,
                area,
                message,
            },
        ),
{
    let end = semantics::rich_failure(m, rule, subject, area, message, modal).0;
    laws::lemma_rich_failure_adds_on(m, rule, subject, area, message, modal);
    laws::lemma_unmet_obligation_is_reported(m, rule, subject, area, message, modal);
    assert(m.names.len() < end.names.len()) by {
        reveal(graph::extends);
    }
    lemma_finding_is_appended(m, end);
    lemma_obligation_reads_back(m, rule, subject, area, message, modal);
}

/// A failed assertion adds exactly one finding to those collected, behind the
/// others, which stay as they are.
pub proof fn lemma_assertion_is_collected(
    m: ModelView,
    rule: Seq<char>,
    message: Seq<char>,
    context: Option<EntityId>,
)
    requires
        semantics::plain_failure(m, rule, message, context).1 is Ok,
        semantics::plain_failure(m, rule, message, context).0.ids_fit(),
        graph::is_silent_on_new(m, semantics::plain_failure(m, rule, message, context).0),
    ensures
        analysis::failures_in(semantics::plain_failure(m, rule, message, context).0)
            == analysis::failures_in(m).push(
            FailureView {
                entity: m.next_id(),
                assertion: rule + ": "@ + message,
                severity: AssertSeverity::Error,
                subject: context,
                area: None,
                message: None,
            },
        ),
{
    let end = semantics::plain_failure(m, rule, message, context).0;
    let node = m.next_id();
    laws::lemma_plain_failure_adds_on(m, rule, message, context);
    assert(m.names.len() < end.names.len()) by {
        reveal(graph::extends);
    }
    let c1 = semantics::new_failure(m);
    let c2 = semantics::with_literal(
        c1,
        node,
        "core:assertion"@,
        Some(rule + ": "@ + message),
        "failed to set assertion message: "@,
    );
    graph::lemma_extends_reflexive(end);
    lemma_with_link_says(
        c2,
        end,
        node,
        "core:subject"@,
        context,
        "failed to link failure to subject: "@,
    );
    lemma_with_literal_says(
        c1,
        end,
        node,
        "core:assertion"@,
        Some(rule + ": "@ + message),
        "failed to set assertion message: "@,
    );
    lemma_new_failure_says(m, end);
    let kind = end.resolve("core:AssertFailure"@)->0;
    assert(says(end, end, node, "wa2:type"@, ValueView::Entity(kind)));
    lemma_finding_is_appended(m, end);
    lemma_assertion_reads_back(m, rule, message, context);
}

/// A finding stands where its subject stands; without a subject it stands nowhere.
pub proof fn lemma_finding_stands_at_subject(m: ModelView, failure: FailureView)
    ensures
        failure.subject is None ==> analysis::place_of(m, failure) is None,
        failure.subject is Some ==> analysis::place_of(m, failure) == view::last_range(
            m.sources,
            failure.subject->0,
        ),
{
}

} // verus!
