//! What holds of derives, rules and policies, whatever they say.

use vstd::prelude::*;

use crate::kernel::ast::{
    AddExpr, AddStmt, AsExpr, Axis, Derive, Expr, MatchExpr, Modal, ModalStmt, QueryStep, Rule,
    Statement,
};
use crate::kernel::paths;
use crate::kernel::semantics::{
    self, EnvView, EvalView, ExecutionView, Frame, PolicyOutcome, PolicyRuleView, Progress, State,
    TextFound, TextUse, VisitView, World,
};
use crate::kernel::traversal;
use crate::model::laws as graph;
use crate::model::view::{self, Change, Fact, ModelView, ValueView};
use crate::model::EntityId;
use crate::text;

verus! {

// ---------------------------------------------------------------------------
// Variables
// ---------------------------------------------------------------------------

proof fn lemma_without(env: EnvView, name: Seq<char>, other: Seq<char>)
    ensures
        semantics::lookup(semantics::without(env, name), name) is None,
        other != name ==> semantics::lookup(semantics::without(env, name), other)
            == semantics::lookup(env, other),
    decreases env.len(),
{
    if env.len() > 0 {
        lemma_without(env.drop_last(), name, other);
        let rest = semantics::without(env.drop_last(), name);
        if env.last().0 != name {
            assert(rest.push(env.last()).drop_last() =~= rest);
        }
    }
}

/// A variable has the value that it was bound to last; the others keep theirs.
pub proof fn lemma_bound_variable(env: EnvView, name: Seq<char>, value: EvalView, other: Seq<char>)
    ensures
        semantics::lookup(semantics::bound(env, name, value), name) == Some(value),
        other != name ==> semantics::lookup(semantics::bound(env, name, value), other)
            == semantics::lookup(env, other),
{
    lemma_without(env, name, other);
    let rest = semantics::without(env, name);
    assert(rest.push((name, value)).drop_last() =~= rest);
}

/// The entity bound last is the context of a finding.
pub proof fn lemma_bound_entity_is_context(env: EnvView, name: Seq<char>, id: EntityId)
    ensures
        semantics::context_entity(semantics::bound(env, name, EvalView::Entity(id))) == Some(id),
{
}

// ---------------------------------------------------------------------------
// Expressions
// ---------------------------------------------------------------------------

/// `empty(x)` is satisfied where `x` is not, and only there.
pub proof fn lemma_empty_negates(m: ModelView, inner: Box<Expr>, span: crate::kernel::ast::Span, env: EnvView, in_derive: bool)
    requires
        semantics::eval(m, *inner, env, in_derive).1 is Ok,
    ensures
        semantics::eval(m, Expr::Empty(inner, span), env, in_derive).1 is Ok,
        semantics::satisfied(
            semantics::eval(m, Expr::Empty(inner, span), env, in_derive).1->Ok_0,
        ) == !semantics::satisfied(semantics::eval(m, *inner, env, in_derive).1->Ok_0),
{
    reveal_strlit("true");
    reveal_strlit("false");
    reveal_with_fuel(semantics::eval, 2);
    assert("true"@.len() == 4);
    assert("false"@.len() == 5);
}

/// The graph in which a choice evaluates its arm.
spec fn after_choice(m: ModelView, value: Expr, env: EnvView, in_derive: bool) -> ModelView {
    if value is Query {
        m
    } else {
        semantics::eval(m, value, env, in_derive).0
    }
}

/// The graph after a choice is the one after its value, or after one of its arms.
proof fn lemma_choice_graph(m: ModelView, choice: Box<MatchExpr>, env: EnvView, in_derive: bool)
    ensures
        ({
            let end = semantics::eval(m, Expr::Match(choice), env, in_derive).0;
            let middle = after_choice(m, choice.value, env, in_derive);
            ||| end == middle
            ||| exists|i: int|
                0 <= i < choice.arms@.len() && end == semantics::eval(
                    middle,
                    (#[trigger] choice.arms@[i]).result,
                    env,
                    in_derive,
                ).0
        }),
{
    reveal_with_fuel(semantics::eval, 2);
    let middle = after_choice(m, choice.value, env, in_derive);
    let found = match choice.value {
        Expr::Query(query) => semantics::query_text(m, query.path.steps@, env, TextUse::Match),
        _ => match semantics::eval(m, choice.value, env, in_derive).1 {
            Ok(v) => semantics::value_text(v, TextUse::Match),
            Err(e) => TextFound::Fault(e),
        },
    };
    match found {
        TextFound::Text(s) => match semantics::matching_arm(choice.arms@, text::unquoted(s), 0) {
            Some(i) => {
                if 0 <= i < choice.arms@.len() {
                    let arm = choice.arms@[i];
                    assert(semantics::eval(m, Expr::Match(choice), env, in_derive).0
                        == semantics::eval(middle, arm.result, env, in_derive).0);
                }
            },
            None => {},
        },
        _ => {},
    }
}

/// The graph after a check is the one after its value.
proof fn lemma_check_graph(m: ModelView, check: Box<AsExpr>, env: EnvView, in_derive: bool)
    ensures
        semantics::eval(m, Expr::As(check), env, in_derive).0 == after_choice(
            m,
            check.inner,
            env,
            in_derive,
        ),
{
    reveal_with_fuel(semantics::eval, 2);
}

/// To evaluate an expression in a rule leaves the graph as it is.
pub proof fn lemma_rules_evaluate_without_change(m: ModelView, e: Expr, env: EnvView)
    ensures
        semantics::eval(m, e, env, false).0 == m,
        semantics::eval_entity(m, e, env, false).0 == m,
    decreases e,
{
    match e {
        Expr::Empty(inner, _) => {
            lemma_rules_evaluate_without_change(m, *inner, env);
            assert(semantics::eval(m, e, env, false).0 == semantics::eval(m, *inner, env, false).0);
        },
        Expr::Match(choice) => {
            lemma_rules_evaluate_without_change(m, choice.value, env);
            lemma_choice_graph(m, choice, env, false);
            assert forall|i: int| 0 <= i < choice.arms@.len() implies semantics::eval(
                m,
                (#[trigger] choice.arms@[i]).result,
                env,
                false,
            ).0 == m by {
                lemma_rules_evaluate_without_change(m, choice.arms@[i].result, env);
            }
        },
        Expr::As(check) => {
            lemma_rules_evaluate_without_change(m, check.inner, env);
            lemma_check_graph(m, check, env, false);
        },
        Expr::Add(add) => {
            lemma_rules_cannot_add(m, add, env);
        },
        _ => {},
    }
}

/// A rule that asks for a new statement is refused, and nothing is stated.
pub proof fn lemma_rules_cannot_add(m: ModelView, add: Box<AddExpr>, env: EnvView)
    ensures
        semantics::eval(m, Expr::Add(add), env, false) == (
            m,
            Err::<EvalView, Seq<char>>("add expressions not allowed in rules"@),
        ),
        semantics::eval_entity(m, Expr::Add(add), env, false) == (
            m,
            Err::<EntityId, Seq<char>>("add expressions not allowed in rules"@),
        ),
{
}

/// A rule that asks for a new node is refused, and none is made.
pub proof fn lemma_rules_cannot_make_nodes(m: ModelView, span: crate::kernel::ast::Span, env: EnvView)
    ensures
        semantics::eval(m, Expr::Blank(span), env, false) == (
            m,
            Err::<EvalView, Seq<char>>("blank nodes not allowed in rules"@),
        ),
        semantics::eval_entity(m, Expr::Blank(span), env, false) == (
            m,
            Err::<EntityId, Seq<char>>("blank nodes not allowed in rules"@),
        ),
{
}

/// To evaluate an expression leaves what was in the graph.
#[verifier::rlimit(50)]
pub proof fn lemma_eval_extends(m: ModelView, e: Expr, env: EnvView, in_derive: bool)
    ensures
        graph::extends(m, semantics::eval(m, e, env, in_derive).0),
        graph::extends(m, semantics::eval_entity(m, e, env, in_derive).0),
    decreases e,
{
    graph::lemma_extends_reflexive(m);
    graph::lemma_blank_extends(m);
    match e {
        Expr::Add(add) => {
            lemma_add_extends(m, *add, env, in_derive);
        },
        Expr::Empty(inner, _) => {
            lemma_eval_extends(m, *inner, env, in_derive);
            assert(semantics::eval(m, e, env, in_derive).0 == semantics::eval(
                m,
                *inner,
                env,
                in_derive,
            ).0);
        },
        Expr::Match(choice) => {
            lemma_eval_extends(m, choice.value, env, in_derive);
            lemma_choice_graph(m, choice, env, in_derive);
            let middle = after_choice(m, choice.value, env, in_derive);
            assert forall|i: int| 0 <= i < choice.arms@.len() implies graph::extends(
                middle,
                semantics::eval(
                    middle,
                    (#[trigger] choice.arms@[i]).result,
                    env,
                    in_derive,
                ).0,
            ) by {
                lemma_eval_extends(middle, choice.arms@[i].result, env, in_derive);
            }
            graph::lemma_extends_reflexive(middle);
            graph::lemma_extends_transitive(
                m,
                middle,
                semantics::eval(m, e, env, in_derive).0,
            );
        },
        Expr::As(check) => {
            lemma_eval_extends(m, check.inner, env, in_derive);
            lemma_check_graph(m, check, env, in_derive);
        },
        _ => {},
    }
}

proof fn lemma_add_extends(m: ModelView, add: AddExpr, env: EnvView, in_derive: bool)
    ensures
        graph::extends(m, semantics::eval_add(m, add, env, in_derive).0),
    decreases add,
{
    graph::lemma_extends_reflexive(m);
    lemma_eval_extends(m, add.subject, env, in_derive);
    let m1 = semantics::eval_entity(m, add.subject, env, in_derive);
    if in_derive && m1.1 is Ok {
        lemma_eval_extends(m1.0, add.object, env, in_derive);
        let m2 = semantics::eval(m1.0, add.object, env, in_derive);
        if m2.1 is Ok {
            lemma_attached_extends(m2.0, m1.1->Ok_0, add.predicate.text(), m2.1->Ok_0);
            graph::lemma_extends_transitive(
                m1.0,
                m2.0,
                semantics::attached(m2.0, m1.1->Ok_0, add.predicate.text(), m2.1->Ok_0).0,
            );
            graph::lemma_extends_transitive(
                m,
                m1.0,
                semantics::attached(m2.0, m1.1->Ok_0, add.predicate.text(), m2.1->Ok_0).0,
            );
        } else {
            graph::lemma_extends_transitive(m, m1.0, m2.0);
        }
    }
}

proof fn lemma_attached_extends(m: ModelView, subject: EntityId, predicate: Seq<char>, object: EvalView)
    ensures
        graph::extends(m, semantics::attached(m, subject, predicate, object).0),
{
    graph::lemma_extends_reflexive(m);
    match object {
        EvalView::Entity(id) => {
            graph::lemma_apply_then_has(m, subject, predicate, ValueView::Entity(id));
        },
        EvalView::Literal(s) => {
            graph::lemma_apply_then_has(m, subject, predicate, ValueView::Literal(s));
        },
        _ => {},
    }
}

// ---------------------------------------------------------------------------
// Findings
// ---------------------------------------------------------------------------

/// Whether `b` extends `a` by statements on one node.
pub open spec fn adds_on(a: ModelView, b: ModelView, node: EntityId) -> bool {
    &&& graph::extends(a, b)
    &&& forall|i: int|
        a.facts.len() <= i < b.facts.len() ==> (#[trigger] b.facts[i]).subject == node
}

pub proof fn lemma_adds_on_transitive(a: ModelView, b: ModelView, c: ModelView, node: EntityId)
    requires
        adds_on(a, b, node),
        adds_on(b, c, node),
    ensures
        adds_on(a, c, node),
{
    graph::lemma_extends_transitive(a, b, c);
    reveal(graph::extends);
    assert forall|i: int| a.facts.len() <= i < c.facts.len() implies (#[trigger] c.facts[i]).subject
        == node by {
        if i < b.facts.len() {
            assert(c.facts[i] == b.facts[i]);
        }
    }
}

proof fn lemma_with_fact_adds_on(m: ModelView, fact: Fact)
    ensures
        adds_on(m, m.with_fact(fact), fact.subject),
{
    reveal(graph::extends);
}

proof fn lemma_apply_adds_on(m: ModelView, node: EntityId, predicate: Seq<char>, object: ValueView)
    ensures
        adds_on(m, m.apply(node, predicate, object).0, node),
{
    graph::lemma_ensure_then_resolve(m, predicate);
    let ensured = m.ensure_entity(predicate);
    if ensured.1 is Ok {
        let fact = Fact { subject: node, predicate: ensured.1->Ok_0, object };
        lemma_with_fact_adds_on(ensured.0, fact);
        lemma_adds_on_transitive(m, ensured.0, ensured.0.with_fact(fact), node);
    }
}

pub proof fn lemma_apply_to_adds_on(m: ModelView, node: EntityId, predicate: Seq<char>, object: Seq<char>)
    ensures
        adds_on(m, m.apply_to(node, predicate, object).0, node),
{
    if text::is_quoted(object) {
        lemma_apply_adds_on(m, node, predicate, ValueView::Literal(text::unquoted(object)));
    } else {
        graph::lemma_ensure_then_resolve(m, predicate);
        let first = m.ensure_entity(predicate);
        if first.1 is Ok {
            graph::lemma_ensure_then_resolve(first.0, object);
            let second = first.0.ensure_entity(object);
            lemma_adds_on_transitive(m, first.0, second.0, node);
            if second.1 is Ok {
                let fact = Fact {
                    subject: node,
                    predicate: first.1->Ok_0,
                    object: ValueView::Entity(second.1->Ok_0),
                };
                lemma_with_fact_adds_on(second.0, fact);
                lemma_adds_on_transitive(m, second.0, second.0.with_fact(fact), node);
            }
        }
    }
}

/// What a chain of changes on a node keeps: where the next change is on that
/// node too, so is the chain.
proof fn lemma_and_then_adds_on(
    m: ModelView,
    first: Change<()>,
    second: Change<()>,
    prefix: Seq<char>,
    node: EntityId,
)
    requires
        adds_on(m, first.0, node),
        adds_on(first.0, second.0, node),
    ensures
        adds_on(m, semantics::and_then(first, second, prefix).0, node),
{
    lemma_adds_on_transitive(m, first.0, second.0, node);
}

pub proof fn lemma_with_literal_adds_on(
    m: ModelView,
    c: Change<()>,
    node: EntityId,
    predicate: Seq<char>,
    literal: Option<Seq<char>>,
    prefix: Seq<char>,
)
    requires
        adds_on(m, c.0, node),
    ensures
        adds_on(m, semantics::with_literal(c, node, predicate, literal, prefix).0, node),
{
    if let Some(s) = literal {
        lemma_apply_adds_on(c.0, node, predicate, ValueView::Literal(s));
        lemma_and_then_adds_on(
            m,
            c,
            c.0.apply(node, predicate, ValueView::Literal(s)),
            prefix,
            node,
        );
    }
}

pub proof fn lemma_with_link_adds_on(
    m: ModelView,
    c: Change<()>,
    node: EntityId,
    predicate: Seq<char>,
    entity: Option<EntityId>,
    prefix: Seq<char>,
)
    requires
        adds_on(m, c.0, node),
    ensures
        adds_on(m, semantics::with_link(c, node, predicate, entity, prefix).0, node),
{
    if let Some(id) = entity {
        lemma_apply_adds_on(c.0, node, predicate, ValueView::Entity(id));
        lemma_and_then_adds_on(
            m,
            c,
            c.0.apply(node, predicate, ValueView::Entity(id)),
            prefix,
            node,
        );
    }
}

pub proof fn lemma_new_failure_adds_on(m: ModelView)
    ensures
        adds_on(m, semantics::new_failure(m).0, m.next_id()),
        adds_on(m.with_blank(), semantics::new_failure(m).0, m.next_id()),
{
    let node = m.next_id();
    let blank = m.with_blank();
    graph::lemma_blank_extends(m);
    graph::lemma_extends_reflexive(blank);
    lemma_apply_to_adds_on(blank, node, "wa2:type"@, "core:AssertFailure"@);
    lemma_and_then_adds_on(
        m,
        (blank, Ok(())),
        blank.apply_to(node, "wa2:type"@, "core:AssertFailure"@),
        "failed to create failure node: "@,
        node,
    );
    lemma_and_then_adds_on(
        blank,
        (blank, Ok(())),
        blank.apply_to(node, "wa2:type"@, "core:AssertFailure"@),
        "failed to create failure node: "@,
        node,
    );
}

/// The chain of changes that a finding on an obligation is made of.
spec fn failure_chain(
    m: ModelView,
    rule: Seq<char>,
    subject: Option<EntityId>,
    area: Option<EntityId>,
    message: Option<Seq<char>>,
    modal: Modal,
) -> Change<()> {
    let node = m.next_id();
    let c1 = semantics::new_failure(m);
    let assertion = rule + ": "@ + semantics::modal_word(modal) + " obligation not satisfied"@;
    let c2 = semantics::with_literal(
        c1,
        node,
        "core:assertion"@,
        Some(assertion),
        "failed to set assertion: "@,
    );
    let c3 = semantics::with_link(c2, node, "core:subject"@, subject, "failed to set subject: "@);
    let c4 = semantics::with_link(c3, node, "core:area"@, area, "failed to set area: "@);
    semantics::with_literal(c4, node, "core:message"@, message, "failed to set message: "@)
}

proof fn lemma_failure_chain_adds_on(
    a: ModelView,
    m: ModelView,
    rule: Seq<char>,
    subject: Option<EntityId>,
    area: Option<EntityId>,
    message: Option<Seq<char>>,
    modal: Modal,
)
    requires
        adds_on(a, semantics::new_failure(m).0, m.next_id()),
    ensures
        adds_on(a, failure_chain(m, rule, subject, area, message, modal).0, m.next_id()),
{
    let node = m.next_id();
    let c1 = semantics::new_failure(m);
    let assertion = rule + ": "@ + semantics::modal_word(modal) + " obligation not satisfied"@;
    let c2 = semantics::with_literal(
        c1,
        node,
        "core:assertion"@,
        Some(assertion),
        "failed to set assertion: "@,
    );
    lemma_with_literal_adds_on(
        a,
        c1,
        node,
        "core:assertion"@,
        Some(assertion),
        "failed to set assertion: "@,
    );
    let c3 = semantics::with_link(c2, node, "core:subject"@, subject, "failed to set subject: "@);
    lemma_with_link_adds_on(a, c2, node, "core:subject"@, subject, "failed to set subject: "@);
    let c4 = semantics::with_link(c3, node, "core:area"@, area, "failed to set area: "@);
    lemma_with_link_adds_on(a, c3, node, "core:area"@, area, "failed to set area: "@);
    lemma_with_literal_adds_on(a, c4, node, "core:message"@, message, "failed to set message: "@);
}

pub proof fn lemma_rich_failure_adds_on(
    m: ModelView,
    rule: Seq<char>,
    subject: Option<EntityId>,
    area: Option<EntityId>,
    message: Option<Seq<char>>,
    modal: Modal,
)
    ensures
        adds_on(
            m,
            semantics::rich_failure(m, rule, subject, area, message, modal).0,
            m.next_id(),
        ),
        graph::extends(
            m.with_blank(),
            semantics::rich_failure(m, rule, subject, area, message, modal).0,
        ),
{
    let node = m.next_id();
    lemma_new_failure_adds_on(m);
    let c5 = failure_chain(m, rule, subject, area, message, modal);
    lemma_failure_chain_adds_on(m, m, rule, subject, area, message, modal);
    lemma_failure_chain_adds_on(m.with_blank(), m, rule, subject, area, message, modal);
    let last = c5.0.apply_to(node, "core:severity"@, semantics::severity_name(modal));
    lemma_apply_to_adds_on(c5.0, node, "core:severity"@, semantics::severity_name(modal));
    lemma_and_then_adds_on(m, c5, last, "failed to set severity: "@, node);
    lemma_and_then_adds_on(m.with_blank(), c5, last, "failed to set severity: "@, node);
}

pub proof fn lemma_plain_failure_adds_on(
    m: ModelView,
    rule: Seq<char>,
    message: Seq<char>,
    context: Option<EntityId>,
)
    ensures
        adds_on(m, semantics::plain_failure(m, rule, message, context).0, m.next_id()),
        graph::extends(m.with_blank(), semantics::plain_failure(m, rule, message, context).0),
{
    let node = m.next_id();
    lemma_new_failure_adds_on(m);
    let c1 = semantics::new_failure(m);
    let assertion = Some(rule + ": "@ + message);
    let prefix = "failed to set assertion message: "@;
    let c2 = semantics::with_literal(c1, node, "core:assertion"@, assertion, prefix);
    lemma_with_literal_adds_on(m, c1, node, "core:assertion"@, assertion, prefix);
    lemma_with_literal_adds_on(m.with_blank(), c1, node, "core:assertion"@, assertion, prefix);
    let link = "failed to link failure to subject: "@;
    lemma_with_link_adds_on(m, c2, node, "core:subject"@, context, link);
    lemma_with_link_adds_on(m.with_blank(), c2, node, "core:subject"@, context, link);
}

/// An unmet obligation leaves a finding: a node of its own that has the type of
/// findings and the severity that goes with the obligation.
pub proof fn lemma_unmet_obligation_is_reported(
    m: ModelView,
    rule: Seq<char>,
    subject: Option<EntityId>,
    area: Option<EntityId>,
    message: Option<Seq<char>>,
    modal: Modal,
)
    requires
        semantics::rich_failure(m, rule, subject, area, message, modal).1 is Ok,
    ensures
        ({
            let after = semantics::rich_failure(m, rule, subject, area, message, modal).0;
            let node = m.next_id();
            &&& after.resolve("core:AssertFailure"@) is Some
            &&& after.has_type(node, after.resolve("core:AssertFailure"@)->0)
            &&& after.resolve("core:severity"@) is Some
            &&& after.resolve(semantics::severity_name(modal)) is Some
            &&& after.has(
                node,
                after.resolve("core:severity"@)->0,
                ValueView::Entity(after.resolve(semantics::severity_name(modal))->0),
            )
        }),
{
    let node = m.next_id();
    let kind = "core:AssertFailure"@;
    let severity = semantics::severity_name(modal);
    reveal_strlit("core:AssertFailure");
    reveal_strlit("core:Error");
    reveal_strlit("core:Warning");
    reveal_strlit("core:Info");
    let c1 = semantics::new_failure(m);
    let c5 = failure_chain(m, rule, subject, area, message, modal);
    let after = c5.0.apply_to(node, "core:severity"@, severity);
    assert(semantics::rich_failure(m, rule, subject, area, message, modal).0 == after.0);
    assert(c1.1 is Ok);
    assert(!text::is_quoted(kind));
    graph::lemma_apply_to_then_has(m.with_blank(), node, "wa2:type"@, kind);
    graph::lemma_extends_reflexive(c1.0);
    lemma_failure_chain_adds_on(c1.0, m, rule, subject, area, message, modal);
    graph::lemma_apply_to_extends(c5.0, node, "core:severity"@, severity);
    graph::lemma_extends_transitive(c1.0, c5.0, after.0);
    graph::lemma_resolve_stable(c1.0, after.0, kind);
    graph::lemma_has_type_stable(c1.0, after.0, node, c1.0.resolve(kind)->0);
    assert(!text::is_quoted(severity));
    graph::lemma_apply_to_then_has(c5.0, node, "core:severity"@, severity);
}

/// An unmet `must` is a finding of the highest severity.
pub proof fn lemma_unmet_must_is_error_finding(
    m: ModelView,
    rule: Seq<char>,
    subject: Option<EntityId>,
    area: Option<EntityId>,
    message: Option<Seq<char>>,
)
    requires
        semantics::rich_failure(m, rule, subject, area, message, Modal::Must).1 is Ok,
    ensures
        semantics::is_error_finding(
            semantics::rich_failure(m, rule, subject, area, message, Modal::Must).0,
            m.next_id(),
        ),
{
    lemma_unmet_obligation_is_reported(m, rule, subject, area, message, Modal::Must);
}

/// A statement on a node that is in an extension by statements on another node was
/// there before.
proof fn lemma_said_before(
    a: ModelView,
    b: ModelView,
    node: EntityId,
    subject: EntityId,
    predicate: EntityId,
    object: ValueView,
)
    requires
        adds_on(a, b, node),
        subject != node,
        b.has(subject, predicate, object),
    ensures
        a.has(subject, predicate, object),
{
    reveal(graph::extends);
    let fact = Fact { subject, predicate, object };
    let i = choose|i: int| 0 <= i < b.facts.len() && b.facts[i] == fact;
    assert(a.facts[i] == fact);
}

/// What no statement of `a` speaks of is in none of them.
pub proof fn lemma_unsaid(
    a: ModelView,
    b: ModelView,
    id: EntityId,
    subject: EntityId,
    predicate: EntityId,
    object: ValueView,
)
    requires
        graph::is_silent_on_new(a, b),
        a.names.len() <= id.0 < b.names.len(),
        graph::speaks_of(Fact { subject, predicate, object }, id),
    ensures
        !a.has(subject, predicate, object),
{
    let fact = Fact { subject, predicate, object };
    if a.facts.contains(fact) {
        let i = choose|i: int| 0 <= i < a.facts.len() && a.facts[i] == fact;
        assert(graph::speaks_of(a.facts[i], id));
    }
}

/// A name denotes in an extension what it denoted before, or an entity that no
/// statement spoke of.
pub proof fn lemma_name_in_extension(a: ModelView, b: ModelView, name: Seq<char>)
    requires
        graph::extends(a, b),
        b.ids_fit(),
    ensures
        a.resolve(name) is Some ==> b.resolve(name) == a.resolve(name),
        a.resolve(name) is None && b.resolve(name) is Some ==> a.names.len()
            <= (b.resolve(name)->0).0 < b.names.len(),
{
    if a.resolve(name) is Some {
        graph::lemma_resolve_stable(a, b, name);
    } else if b.resolve(name) is Some {
        graph::lemma_new_name_is_new(a, b, name);
    }
}

/// Statements on one node leave it as it is of every other entity whether it is a
/// finding of the highest severity.
proof fn lemma_other_findings_stay(a: ModelView, b: ModelView, node: EntityId, id: EntityId)
    requires
        adds_on(a, b, node),
        b.ids_fit(),
        graph::is_silent_on_new(a, b),
        id != node,
    ensures
        semantics::is_error_finding(b, id) == semantics::is_error_finding(a, id),
{
    lemma_name_in_extension(a, b, "core:AssertFailure"@);
    lemma_name_in_extension(a, b, "core:severity"@);
    lemma_name_in_extension(a, b, "core:Error"@);
    lemma_name_in_extension(a, b, "wa2:type"@);
    if semantics::is_error_finding(b, id) {
        let kind = b.resolve("core:AssertFailure"@)->0;
        let severity = b.resolve("core:severity"@)->0;
        let error = b.resolve("core:Error"@)->0;
        let is_a = b.resolve("wa2:type"@)->0;
        lemma_said_before(a, b, node, id, is_a, ValueView::Entity(kind));
        lemma_said_before(a, b, node, id, severity, ValueView::Entity(error));
        if a.resolve("core:AssertFailure"@) is None {
            lemma_unsaid(a, b, kind, id, is_a, ValueView::Entity(kind));
        }
        if a.resolve("wa2:type"@) is None {
            lemma_unsaid(a, b, is_a, id, is_a, ValueView::Entity(kind));
        }
        if a.resolve("core:severity"@) is None {
            lemma_unsaid(a, b, severity, id, severity, ValueView::Entity(error));
        }
        if a.resolve("core:Error"@) is None {
            lemma_unsaid(a, b, error, id, severity, ValueView::Entity(error));
        }
    }
    if semantics::is_error_finding(a, id) {
        let kind = a.resolve("core:AssertFailure"@)->0;
        let severity = a.resolve("core:severity"@)->0;
        let error = a.resolve("core:Error"@)->0;
        graph::lemma_has_type_stable(a, b, id, kind);
        graph::lemma_has_stable(a, b, id, severity, ValueView::Entity(error));
    }
}

/// Nothing that is new in `b` was a finding in `a`.
proof fn lemma_new_was_no_finding(a: ModelView, b: ModelView, id: EntityId)
    requires
        graph::is_silent_on_new(a, b),
        a.names.len() <= id.0 < b.names.len(),
    ensures
        !semantics::is_error_finding(a, id),
{
    if semantics::is_error_finding(a, id) {
        let severity = a.resolve("core:severity"@)->0;
        let error = a.resolve("core:Error"@)->0;
        lemma_unsaid(a, b, id, id, severity, ValueView::Entity(error));
    }
}

/// Of the first `n` entities, those that statements on a new node make findings of
/// the highest severity are that node or none.
proof fn lemma_first_findings_stay(a: ModelView, b: ModelView, n: nat)
    requires
        adds_on(a, b, a.next_id()),
        b.ids_fit(),
        graph::is_silent_on_new(a, b),
        n <= b.names.len(),
        a.names.len() < b.names.len(),
    ensures
        n <= a.names.len() ==> semantics::error_findings(b, n) == semantics::error_findings(a, n),
        n > a.names.len() ==> semantics::error_findings(b, n) == semantics::error_count(a)
            + if semantics::is_error_finding(b, a.next_id()) {
            1nat
        } else {
            0nat
        },
    decreases n,
{
    if n > 0 {
        lemma_first_findings_stay(a, b, (n - 1) as nat);
        let id = view::id_at(n - 1);
        graph::lemma_id_at(n - 1);
        graph::lemma_id_at(a.names.len() as int);
        if n - 1 != a.names.len() {
            lemma_other_findings_stay(a, b, a.next_id(), id);
        }
        if n - 1 > a.names.len() {
            lemma_new_was_no_finding(a, b, id);
        }
    }
}

/// A statement that differs from what is made of a node is not made.
proof fn lemma_apply_leaves_unsaid(
    m: ModelView,
    end: ModelView,
    node: EntityId,
    predicate: Seq<char>,
    object: ValueView,
    other: Seq<char>,
    value: ValueView,
)
    requires
        graph::extends(m.apply(node, predicate, object).0, end),
        end.ids_fit(),
        end.resolve(other) is Some,
        predicate != other || object != value,
        !m.has(node, end.resolve(other)->0, value),
    ensures
        !m.apply(node, predicate, object).0.has(node, end.resolve(other)->0, value),
{
    let after = m.apply(node, predicate, object).0;
    let ensured = m.ensure_entity(predicate);
    graph::lemma_ensure_then_resolve(m, predicate);
    graph::lemma_apply_then_has(m, node, predicate, object);
    if ensured.1 is Ok {
        graph::lemma_resolve_stable(after, end, predicate);
        let said = Fact { subject: node, predicate: ensured.1->Ok_0, object };
        lemma_with_fact_resolves(ensured.0, said, predicate);
        if predicate != other {
            graph::lemma_names_differ(end, predicate, other);
        }
        let fact = Fact { subject: node, predicate: end.resolve(other)->0, object: value };
        assert(said != fact);
        lemma_with_fact_leaves_unsaid(ensured.0, said, fact);
    }
}

/// A statement changes no name.
proof fn lemma_with_fact_resolves(m: ModelView, fact: Fact, name: Seq<char>)
    ensures
        m.with_fact(fact).resolve(name) == m.resolve(name),
{
}

/// A statement makes no other one.
proof fn lemma_with_fact_leaves_unsaid(m: ModelView, fact: Fact, other: Fact)
    requires
        fact != other,
        !m.facts.contains(other),
    ensures
        !m.with_fact(fact).facts.contains(other),
{
    let after = m.with_fact(fact).facts;
    if after.contains(other) {
        let i = choose|i: int| 0 <= i < after.len() && after[i] == other;
        assert(m.facts[i] == other);
    }
}

/// A statement with a named object that differs from what is made of a node is not
/// made.
proof fn lemma_apply_to_leaves_unsaid(
    m: ModelView,
    end: ModelView,
    node: EntityId,
    predicate: Seq<char>,
    object: Seq<char>,
    other: Seq<char>,
    value: Seq<char>,
)
    requires
        graph::extends(m.apply_to(node, predicate, object).0, end),
        m.apply_to(node, predicate, object).1 is Ok,
        !text::is_quoted(object),
        end.ids_fit(),
        end.resolve(other) is Some,
        end.resolve(value) is Some,
        predicate != other || object != value,
        !m.has(node, end.resolve(other)->0, ValueView::Entity(end.resolve(value)->0)),
    ensures
        !m.apply_to(node, predicate, object).0.has(
            node,
            end.resolve(other)->0,
            ValueView::Entity(end.resolve(value)->0),
        ),
{
    let after = m.apply_to(node, predicate, object).0;
    let first = m.ensure_entity(predicate);
    graph::lemma_ensure_then_resolve(m, predicate);
    let second = first.0.ensure_entity(object);
    graph::lemma_ensure_then_resolve(first.0, object);
    graph::lemma_resolve_stable(first.0, second.0, predicate);
    let said = Fact {
        subject: node,
        predicate: first.1->Ok_0,
        object: ValueView::Entity(second.1->Ok_0),
    };
    lemma_with_fact_resolves(second.0, said, predicate);
    lemma_with_fact_resolves(second.0, said, object);
    graph::lemma_resolve_stable(after, end, predicate);
    graph::lemma_resolve_stable(after, end, object);
    if predicate != other {
        graph::lemma_names_differ(end, predicate, other);
    } else {
        graph::lemma_names_differ(end, object, value);
    }
    let fact = Fact {
        subject: node,
        predicate: end.resolve(other)->0,
        object: ValueView::Entity(end.resolve(value)->0),
    };
    assert(said != fact);
    lemma_with_fact_leaves_unsaid(second.0, said, fact);
}

/// What is stated of a finding, and does not name its severity, leaves it without
/// the highest one.
proof fn lemma_with_literal_leaves_unsaid(
    c: Change<()>,
    end: ModelView,
    node: EntityId,
    predicate: Seq<char>,
    literal: Option<Seq<char>>,
    prefix: Seq<char>,
    other: Seq<char>,
    value: EntityId,
)
    requires
        graph::extends(semantics::with_literal(c, node, predicate, literal, prefix).0, end),
        semantics::with_literal(c, node, predicate, literal, prefix).1 is Ok,
        end.ids_fit(),
        end.resolve(other) is Some,
        !c.0.has(node, end.resolve(other)->0, ValueView::Entity(value)),
    ensures
        !semantics::with_literal(c, node, predicate, literal, prefix).0.has(
            node,
            end.resolve(other)->0,
            ValueView::Entity(value),
        ),
{
    if let Some(s) = literal {
        lemma_apply_leaves_unsaid(
            c.0,
            end,
            node,
            predicate,
            ValueView::Literal(s),
            other,
            ValueView::Entity(value),
        );
    }
}

/// A link under another predicate is no statement under this one.
proof fn lemma_with_link_leaves_unsaid(
    c: Change<()>,
    end: ModelView,
    node: EntityId,
    predicate: Seq<char>,
    entity: Option<EntityId>,
    prefix: Seq<char>,
    other: Seq<char>,
    value: EntityId,
)
    requires
        graph::extends(semantics::with_link(c, node, predicate, entity, prefix).0, end),
        semantics::with_link(c, node, predicate, entity, prefix).1 is Ok,
        end.ids_fit(),
        end.resolve(other) is Some,
        predicate != other,
        !c.0.has(node, end.resolve(other)->0, ValueView::Entity(value)),
    ensures
        !semantics::with_link(c, node, predicate, entity, prefix).0.has(
            node,
            end.resolve(other)->0,
            ValueView::Entity(value),
        ),
{
    if let Some(id) = entity {
        lemma_apply_leaves_unsaid(
            c.0,
            end,
            node,
            predicate,
            ValueView::Entity(id),
            other,
            ValueView::Entity(value),
        );
    }
}

/// A new finding has no severity yet.
proof fn lemma_new_failure_leaves_unsaid(m: ModelView, end: ModelView)
    requires
        semantics::new_failure(m).1 is Ok,
        graph::extends(semantics::new_failure(m).0, end),
        graph::is_silent_on_new(m, end),
        end.ids_fit(),
        end.resolve("core:severity"@) is Some,
        end.resolve("core:Error"@) is Some,
    ensures
        !semantics::new_failure(m).0.has(
            m.next_id(),
            end.resolve("core:severity"@)->0,
            ValueView::Entity(end.resolve("core:Error"@)->0),
        ),
{
    let node = m.next_id();
    let blank = m.with_blank();
    let severity = end.resolve("core:severity"@)->0;
    let error = ValueView::Entity(end.resolve("core:Error"@)->0);
    lemma_new_failure_adds_on(m);
    assert(m.names.len() < end.names.len()) by {
        reveal(graph::extends);
    }
    graph::lemma_id_at(m.names.len() as int);
    lemma_unsaid(m, end, node, node, severity, error);
    assert("wa2:type"@ != "core:severity"@ && !text::is_quoted("core:AssertFailure"@)) by {
        reveal_strlit("wa2:type");
        reveal_strlit("core:severity");
        reveal_strlit("core:AssertFailure");
        assert("wa2:type"@[0] == 'w');
    }
    lemma_apply_to_leaves_unsaid(
        blank,
        end,
        node,
        "wa2:type"@,
        "core:AssertFailure"@,
        "core:severity"@,
        "core:Error"@,
    );
}

/// The predicates of a finding are different ones.
proof fn lemma_finding_predicates()
    ensures
        "core:subject"@ != "core:severity"@,
        "core:area"@ != "core:severity"@,
        "core:Warning"@ != "core:Error"@,
        "core:Info"@ != "core:Error"@,
        !text::is_quoted("core:Warning"@),
        !text::is_quoted("core:Info"@),
{
    reveal_strlit("core:subject");
    reveal_strlit("core:severity");
    reveal_strlit("core:area");
    reveal_strlit("core:Warning");
    reveal_strlit("core:Info");
    reveal_strlit("core:Error");
    assert("core:subject"@.len() == 12);
    assert("core:severity"@.len() == 13);
    assert("core:Warning"@.len() == 12);
    assert("core:Error"@.len() == 10);
    assert("core:Info"@.len() == 9);
}

/// An obligation that is not met adds one finding of the highest severity where it
/// is a `must`, and none where it is a `should` or a `may`, unless a statement
/// speaks already of an entity that comes with the finding.
pub proof fn lemma_unmet_obligation_counts(
    m: ModelView,
    rule: Seq<char>,
    subject: Option<EntityId>,
    area: Option<EntityId>,
    message: Option<Seq<char>>,
    modal: Modal,
)
    requires
        semantics::rich_failure(m, rule, subject, area, message, modal).1 is Ok,
        semantics::rich_failure(m, rule, subject, area, message, modal).0.ids_fit(),
        graph::is_silent_on_new(
            m,
            semantics::rich_failure(m, rule, subject, area, message, modal).0,
        ),
    ensures
        semantics::error_count(semantics::rich_failure(m, rule, subject, area, message, modal).0)
            == semantics::error_count(m) + if modal is Must {
            1nat
        } else {
            0nat
        },
{
    let end = semantics::rich_failure(m, rule, subject, area, message, modal).0;
    let node = m.next_id();
    lemma_rich_failure_adds_on(m, rule, subject, area, message, modal);
    assert(m.names.len() < end.names.len()) by {
        reveal(graph::extends);
    }
    lemma_first_findings_stay(m, end, end.names.len());
    if modal is Must {
        lemma_unmet_must_is_error_finding(m, rule, subject, area, message);
    } else if end.resolve("core:severity"@) is Some && end.resolve("core:Error"@) is Some {
        lemma_weak_failure_has_no_error(m, rule, subject, area, message, modal);
    }
}

/// A finding on a `should` or a `may` does not have the highest severity.
proof fn lemma_weak_failure_has_no_error(
    m: ModelView,
    rule: Seq<char>,
    subject: Option<EntityId>,
    area: Option<EntityId>,
    message: Option<Seq<char>>,
    modal: Modal,
)
    requires
        !(modal is Must),
        semantics::rich_failure(m, rule, subject, area, message, modal).1 is Ok,
        semantics::rich_failure(m, rule, subject, area, message, modal).0.ids_fit(),
        semantics::rich_failure(m, rule, subject, area, message, modal).0.resolve(
            "core:severity"@,
        ) is Some,
        semantics::rich_failure(m, rule, subject, area, message, modal).0.resolve(
            "core:Error"@,
        ) is Some,
        graph::is_silent_on_new(
            m,
            semantics::rich_failure(m, rule, subject, area, message, modal).0,
        ),
    ensures
        !semantics::is_error_finding(
            semantics::rich_failure(m, rule, subject, area, message, modal).0,
            m.next_id(),
        ),
{
    let end = semantics::rich_failure(m, rule, subject, area, message, modal).0;
    let node = m.next_id();
    let s = "core:severity"@;
    let error = end.resolve("core:Error"@)->0;
    let c1 = semantics::new_failure(m);
    let assertion = Some(
        rule + ": "@ + semantics::modal_word(modal) + " obligation not satisfied"@,
    );
    let p2 = "failed to set assertion: "@;
    let c2 = semantics::with_literal(c1, node, "core:assertion"@, assertion, p2);
    let p3 = "failed to set subject: "@;
    let c3 = semantics::with_link(c2, node, "core:subject"@, subject, p3);
    let p4 = "failed to set area: "@;
    let c4 = semantics::with_link(c3, node, "core:area"@, area, p4);
    let p5 = "failed to set message: "@;
    let c5 = semantics::with_literal(c4, node, "core:message"@, message, p5);
    graph::lemma_extends_reflexive(end);
    lemma_apply_to_adds_on(c5.0, node, s, semantics::severity_name(modal));
    graph::lemma_extends_reflexive(c4.0);
    lemma_with_literal_adds_on(c4.0, c4, node, "core:message"@, message, p5);
    graph::lemma_extends_transitive(c4.0, c5.0, end);
    graph::lemma_extends_reflexive(c3.0);
    lemma_with_link_adds_on(c3.0, c3, node, "core:area"@, area, p4);
    graph::lemma_extends_transitive(c3.0, c4.0, end);
    graph::lemma_extends_reflexive(c2.0);
    lemma_with_link_adds_on(c2.0, c2, node, "core:subject"@, subject, p3);
    graph::lemma_extends_transitive(c2.0, c3.0, end);
    graph::lemma_extends_reflexive(c1.0);
    lemma_with_literal_adds_on(c1.0, c1, node, "core:assertion"@, assertion, p2);
    graph::lemma_extends_transitive(c1.0, c2.0, end);
    lemma_finding_predicates();
    lemma_new_failure_leaves_unsaid(m, end);
    lemma_with_literal_leaves_unsaid(c1, end, node, "core:assertion"@, assertion, p2, s, error);
    lemma_with_link_leaves_unsaid(c2, end, node, "core:subject"@, subject, p3, s, error);
    lemma_with_link_leaves_unsaid(c3, end, node, "core:area"@, area, p4, s, error);
    lemma_with_literal_leaves_unsaid(c4, end, node, "core:message"@, message, p5, s, error);
    lemma_apply_to_leaves_unsaid(
        c5.0,
        end,
        node,
        s,
        semantics::severity_name(modal),
        s,
        "core:Error"@,
    );
}

/// A literal on an entity of a graph leaves the graph closed.
proof fn lemma_with_literal_keeps_closed(
    c: Change<()>,
    node: EntityId,
    predicate: Seq<char>,
    literal: Option<Seq<char>>,
    prefix: Seq<char>,
)
    requires
        graph::is_closed(c.0),
        graph::holds(c.0, node),
        semantics::with_literal(c, node, predicate, literal, prefix).0.ids_fit(),
    ensures
        graph::is_closed(semantics::with_literal(c, node, predicate, literal, prefix).0),
        graph::holds(semantics::with_literal(c, node, predicate, literal, prefix).0, node),
        c.0.names.len() <= semantics::with_literal(c, node, predicate, literal, prefix).0.names.len(),
{
    if let Some(s) = literal {
        if c.1 is Ok {
            graph::lemma_apply_keeps_closed(c.0, node, predicate, ValueView::Literal(s));
        }
    }
}

/// A link between entities of a graph leaves the graph closed.
proof fn lemma_with_link_keeps_closed(
    c: Change<()>,
    node: EntityId,
    predicate: Seq<char>,
    entity: Option<EntityId>,
    prefix: Seq<char>,
)
    requires
        graph::is_closed(c.0),
        graph::holds(c.0, node),
        entity is Some ==> graph::holds(c.0, entity->0),
        semantics::with_link(c, node, predicate, entity, prefix).0.ids_fit(),
    ensures
        graph::is_closed(semantics::with_link(c, node, predicate, entity, prefix).0),
        graph::holds(semantics::with_link(c, node, predicate, entity, prefix).0, node),
        c.0.names.len() <= semantics::with_link(c, node, predicate, entity, prefix).0.names.len(),
{
    if let Some(id) = entity {
        if c.1 is Ok {
            graph::lemma_apply_keeps_closed(c.0, node, predicate, ValueView::Entity(id));
        }
    }
}

/// What extends a graph has at least as many entities.
proof fn lemma_extension_is_longer(a: ModelView, b: ModelView)
    requires
        graph::extends(a, b),
    ensures
        a.names.len() <= b.names.len(),
{
    reveal(graph::extends);
}

/// A finding on an obligation, about entities of a graph, leaves the graph closed.
pub proof fn lemma_unmet_obligation_keeps_closed(
    m: ModelView,
    rule: Seq<char>,
    subject: Option<EntityId>,
    area: Option<EntityId>,
    message: Option<Seq<char>>,
    modal: Modal,
)
    requires
        graph::is_closed(m),
        subject is Some ==> graph::holds(m, subject->0),
        area is Some ==> graph::holds(m, area->0),
        semantics::rich_failure(m, rule, subject, area, message, modal).0.ids_fit(),
    ensures
        graph::is_closed(semantics::rich_failure(m, rule, subject, area, message, modal).0),
{
    let node = m.next_id();
    let c1 = semantics::new_failure(m);
    let assertion = Some(
        rule + ": "@ + semantics::modal_word(modal) + " obligation not satisfied"@,
    );
    let p2 = "failed to set assertion: "@;
    let c2 = semantics::with_literal(c1, node, "core:assertion"@, assertion, p2);
    let p3 = "failed to set subject: "@;
    let c3 = semantics::with_link(c2, node, "core:subject"@, subject, p3);
    let p4 = "failed to set area: "@;
    let c4 = semantics::with_link(c3, node, "core:area"@, area, p4);
    let p5 = "failed to set message: "@;
    let c5 = semantics::with_literal(c4, node, "core:message"@, message, p5);
    let severity = semantics::severity_name(modal);
    lemma_apply_to_adds_on(c5.0, node, "core:severity"@, severity);
    lemma_extension_is_longer(c5.0, c5.0.apply_to(node, "core:severity"@, severity).0);
    graph::lemma_extends_reflexive(c4.0);
    lemma_with_literal_adds_on(c4.0, c4, node, "core:message"@, message, p5);
    lemma_extension_is_longer(c4.0, c5.0);
    graph::lemma_extends_reflexive(c3.0);
    lemma_with_link_adds_on(c3.0, c3, node, "core:area"@, area, p4);
    lemma_extension_is_longer(c3.0, c4.0);
    graph::lemma_extends_reflexive(c2.0);
    lemma_with_link_adds_on(c2.0, c2, node, "core:subject"@, subject, p3);
    lemma_extension_is_longer(c2.0, c3.0);
    graph::lemma_extends_reflexive(c1.0);
    lemma_with_literal_adds_on(c1.0, c1, node, "core:assertion"@, assertion, p2);
    lemma_extension_is_longer(c1.0, c2.0);
    lemma_new_failure_keeps_closed(m);
    lemma_with_literal_keeps_closed(c1, node, "core:assertion"@, assertion, p2);
    lemma_with_link_keeps_closed(c2, node, "core:subject"@, subject, p3);
    lemma_with_link_keeps_closed(c3, node, "core:area"@, area, p4);
    lemma_with_literal_keeps_closed(c4, node, "core:message"@, message, p5);
    if c5.1 is Ok {
        graph::lemma_apply_to_keeps_closed(c5.0, node, "core:severity"@, severity);
    }
}

/// A new finding leaves a graph closed, and is in it.
proof fn lemma_new_failure_keeps_closed(m: ModelView)
    requires
        graph::is_closed(m),
        semantics::new_failure(m).0.ids_fit(),
    ensures
        graph::is_closed(semantics::new_failure(m).0),
        graph::holds(semantics::new_failure(m).0, m.next_id()),
        m.names.len() <= semantics::new_failure(m).0.names.len(),
{
    lemma_new_failure_adds_on(m);
    lemma_extension_is_longer(m.with_blank(), semantics::new_failure(m).0);
    graph::lemma_blank_keeps_closed(m);
    graph::lemma_apply_to_keeps_closed(
        m.with_blank(),
        m.next_id(),
        "wa2:type"@,
        "core:AssertFailure"@,
    );
}

/// A finding on an assertion, about an entity of a graph, leaves the graph closed.
pub proof fn lemma_failed_assertion_keeps_closed(
    m: ModelView,
    rule: Seq<char>,
    message: Seq<char>,
    context: Option<EntityId>,
)
    requires
        graph::is_closed(m),
        context is Some ==> graph::holds(m, context->0),
        semantics::plain_failure(m, rule, message, context).0.ids_fit(),
    ensures
        graph::is_closed(semantics::plain_failure(m, rule, message, context).0),
{
    let node = m.next_id();
    let c1 = semantics::new_failure(m);
    let assertion = Some(rule + ": "@ + message);
    let p2 = "failed to set assertion message: "@;
    let c2 = semantics::with_literal(c1, node, "core:assertion"@, assertion, p2);
    let p3 = "failed to link failure to subject: "@;
    graph::lemma_extends_reflexive(c2.0);
    lemma_with_link_adds_on(c2.0, c2, node, "core:subject"@, context, p3);
    lemma_extension_is_longer(c2.0, semantics::plain_failure(m, rule, message, context).0);
    graph::lemma_extends_reflexive(c1.0);
    lemma_with_literal_adds_on(c1.0, c1, node, "core:assertion"@, assertion, p2);
    lemma_extension_is_longer(c1.0, c2.0);
    lemma_new_failure_keeps_closed(m);
    lemma_with_literal_keeps_closed(c1, node, "core:assertion"@, assertion, p2);
    lemma_with_link_keeps_closed(c2, node, "core:subject"@, context, p3);
}

/// An assertion that does not hold adds no finding of the highest severity, unless
/// a statement speaks already of an entity that comes with the finding.
pub proof fn lemma_failed_assertion_counts(
    m: ModelView,
    rule: Seq<char>,
    message: Seq<char>,
    context: Option<EntityId>,
)
    requires
        semantics::plain_failure(m, rule, message, context).1 is Ok,
        semantics::plain_failure(m, rule, message, context).0.ids_fit(),
        graph::is_silent_on_new(m, semantics::plain_failure(m, rule, message, context).0),
    ensures
        semantics::error_count(semantics::plain_failure(m, rule, message, context).0)
            == semantics::error_count(m),
{
    let end = semantics::plain_failure(m, rule, message, context).0;
    let node = m.next_id();
    lemma_plain_failure_adds_on(m, rule, message, context);
    assert(m.names.len() < end.names.len()) by {
        reveal(graph::extends);
    }
    lemma_first_findings_stay(m, end, end.names.len());
    let s = "core:severity"@;
    if end.resolve(s) is Some && end.resolve("core:Error"@) is Some {
        let error = end.resolve("core:Error"@)->0;
        let c1 = semantics::new_failure(m);
        let assertion = Some(rule + ": "@ + message);
        let p2 = "failed to set assertion message: "@;
        let c2 = semantics::with_literal(c1, node, "core:assertion"@, assertion, p2);
        let p3 = "failed to link failure to subject: "@;
        graph::lemma_extends_reflexive(end);
        graph::lemma_extends_reflexive(c2.0);
        lemma_with_link_adds_on(c2.0, c2, node, "core:subject"@, context, p3);
        graph::lemma_extends_reflexive(c1.0);
        lemma_with_literal_adds_on(c1.0, c1, node, "core:assertion"@, assertion, p2);
        graph::lemma_extends_transitive(c1.0, c2.0, end);
        lemma_finding_predicates();
        lemma_new_failure_leaves_unsaid(m, end);
        lemma_with_literal_leaves_unsaid(c1, end, node, "core:assertion"@, assertion, p2, s, error);
        lemma_with_link_leaves_unsaid(c2, end, node, "core:subject"@, context, p3, s, error);
    }
}

// ---------------------------------------------------------------------------
// Statements
// ---------------------------------------------------------------------------

/// Whether all statements that `b` has beyond those of `a` are on entities that
/// `a` does not hold.
pub open spec fn only_reports(a: ModelView, b: ModelView) -> bool {
    forall|i: int|
        a.facts.len() <= i < b.facts.len() ==> (#[trigger] b.facts[i]).subject.0 >= a.names.len()
}

/// What executing statements keeps: the graph is extended, by reports alone
/// where the statements are those of a rule, and loop bodies are not executed
/// again.
#[verifier::opaque]
spec fn grew(a: State, b: State, in_derive: bool) -> bool {
    &&& graph::extends(a.model, b.model)
    &&& a.visited.is_prefix_of(b.visited)
    &&& a.visited.no_duplicates() ==> b.visited.no_duplicates()
    &&& !in_derive && b.model.ids_fit() ==> only_reports(a.model, b.model)
}

spec fn state_of(w: World) -> State {
    State { model: w.model, visited: w.visited }
}

proof fn lemma_grew_reflexive(a: State, in_derive: bool)
    ensures
        grew(a, a, in_derive),
{
    reveal(grew);
    graph::lemma_extends_reflexive(a.model);
}

proof fn lemma_grew_transitive(a: State, b: State, c: State, in_derive: bool)
    requires
        grew(a, b, in_derive),
        grew(b, c, in_derive),
    ensures
        grew(a, c, in_derive),
{
    reveal(grew);
    graph::lemma_extends_transitive(a.model, b.model, c.model);
    reveal(graph::extends);
    if !in_derive && c.model.ids_fit() {
        assert forall|i: int| a.model.facts.len() <= i < c.model.facts.len() implies (
        #[trigger] c.model.facts[i]).subject.0 >= a.model.names.len() by {
            if i < b.model.facts.len() {
                assert(c.model.facts[i] == b.model.facts[i]);
            }
        }
    }
}

/// A graph that a derive extended grew.
proof fn lemma_grew_by_derive(a: State, m: ModelView)
    requires
        graph::extends(a.model, m),
    ensures
        grew(a, State { model: m, ..a }, true),
{
    reveal(grew);
}

/// A graph with a finding grew, in a derive or in a rule.
proof fn lemma_grew_by_finding(a: State, m: ModelView, in_derive: bool)
    requires
        adds_on(a.model, m, a.model.next_id()),
        graph::extends(a.model.with_blank(), m),
    ensures
        grew(a, State { model: m, ..a }, in_derive),
{
    reveal(grew);
    reveal(graph::extends);
    if m.ids_fit() {
        graph::lemma_id_at(a.model.names.len() as int);
    }
}

/// A state in which a loop body was recorded that was not before grew.
proof fn lemma_grew_by_visit(a: State, visit: VisitView, in_derive: bool)
    requires
        !a.visited.contains(visit),
    ensures
        grew(a, State { visited: a.visited.push(visit), ..a }, in_derive),
{
    reveal(grew);
    graph::lemma_extends_reflexive(a.model);
}

proof fn lemma_grew_by_eval(a: State, e: Expr, env: EnvView, in_derive: bool)
    ensures
        grew(a, State { model: semantics::eval(a.model, e, env, in_derive).0, ..a }, in_derive),
        grew(
            a,
            State { model: semantics::eval_entity(a.model, e, env, in_derive).0, ..a },
            in_derive,
        ),
{
    if in_derive {
        lemma_eval_extends(a.model, e, env, true);
        lemma_grew_by_derive(a, semantics::eval(a.model, e, env, true).0);
        lemma_grew_by_derive(a, semantics::eval_entity(a.model, e, env, true).0);
    } else {
        lemma_rules_evaluate_without_change(a.model, e, env);
        lemma_grew_reflexive(a, false);
    }
}

proof fn lemma_add_grows(w: World, add: AddStmt, f: Frame)
    ensures
        grew(state_of(w), state_of(semantics::run_add(w, add, f).0), f.in_derive),
{
    let a = state_of(w);
    lemma_grew_reflexive(a, f.in_derive);
    if f.in_derive {
        let m1 = semantics::eval_entity(w.model, add.subject, w.env, true);
        lemma_eval_extends(w.model, add.subject, w.env, true);
        if m1.1 is Ok {
            let m2 = semantics::eval(m1.0, add.object, w.env, true);
            lemma_eval_extends(m1.0, add.object, w.env, true);
            graph::lemma_extends_transitive(w.model, m1.0, m2.0);
            if m2.1 is Ok {
                let predicate = add.predicate.text();
                lemma_attached_extends(m2.0, m1.1->Ok_0, predicate, m2.1->Ok_0);
                graph::lemma_extends_transitive(
                    w.model,
                    m2.0,
                    semantics::attached(m2.0, m1.1->Ok_0, predicate, m2.1->Ok_0).0,
                );
            }
        }
        lemma_grew_by_derive(a, semantics::run_add(w, add, f).0.model);
    }
}

proof fn lemma_modal_grows(w: World, s: ModalStmt, f: Frame)
    ensures
        grew(state_of(w), state_of(semantics::run_modal(w, s, f).0), f.in_derive),
{
    let a = state_of(w);
    let d = f.in_derive;
    let value = semantics::eval(w.model, s.expr, w.env, d);
    let b = State { model: value.0, ..a };
    lemma_grew_by_eval(a, s.expr, w.env, d);
    if value.1 is Ok && !semantics::satisfied(value.1->Ok_0) {
        let subject = semantics::finding_subject(value.0, s.metadata, w.env, d);
        let c = State { model: subject.0, ..a };
        assert(grew(b, c, d)) by {
            lemma_grew_reflexive(b, d);
            if let Some(data) = s.metadata {
                if let Some(e) = data.subject {
                    lemma_grew_by_eval(b, e, w.env, d);
                }
            }
        }
        lemma_grew_transitive(a, b, c, d);
        if subject.1 is Ok {
            let area = semantics::finding_area(subject.0, s.metadata);
            let message = semantics::finding_message(s.metadata);
            lemma_rich_failure_adds_on(
                subject.0,
                f.rule,
                subject.1->Ok_0,
                area,
                message,
                s.modal,
            );
            let end = semantics::rich_failure(
                subject.0,
                f.rule,
                subject.1->Ok_0,
                area,
                message,
                s.modal,
            ).0;
            lemma_grew_by_finding(c, end, d);
            lemma_grew_transitive(a, c, State { model: end, ..c }, d);
        }
    }
}

proof fn lemma_statement_grows(w: World, s: Statement, f: Frame)
    ensures
        grew(state_of(w), state_of(semantics::run_statement(w, s, f).0), f.in_derive),
    decreases s, 0int,
{
    reveal_with_fuel(semantics::run_statement, 1);
    let a = state_of(w);
    let d = f.in_derive;
    match s {
        Statement::Let(binding) => {
            lemma_grew_by_eval(a, binding.value, w.env, d);
        },
        Statement::Add(add) => {
            lemma_add_grows(w, add, f);
        },
        Statement::For(each) => {
            lemma_grew_by_eval(a, each.collection, w.env, d);
            let value = semantics::eval(w.model, each.collection, w.env, d);
            if value.1 is Ok {
                let middle = World { model: value.0, ..w };
                let ids = semantics::nodes_of(value.1->Ok_0);
                lemma_loop_grows(middle, each.var@, ids, each.body@, f);
                lemma_grew_transitive(
                    a,
                    state_of(middle),
                    state_of(semantics::run_loop(middle, each.var@, ids, each.body@, f).0),
                    d,
                );
            }
        },
        Statement::If(choice) => {
            lemma_grew_by_eval(a, choice.condition, w.env, d);
            let value = semantics::eval(w.model, choice.condition, w.env, d);
            if value.1 is Ok {
                let middle = World { model: value.0, ..w };
                if semantics::satisfied(value.1->Ok_0) {
                    lemma_statements_grow(middle, choice.then_body@, f);
                    lemma_grew_transitive(
                        a,
                        state_of(middle),
                        state_of(semantics::run_statements(middle, choice.then_body@, f).0),
                        d,
                    );
                } else if let Some(body) = choice.else_body {
                    lemma_statements_grow(middle, body@, f);
                    lemma_grew_transitive(
                        a,
                        state_of(middle),
                        state_of(semantics::run_statements(middle, body@, f).0),
                        d,
                    );
                }
            }
        },
        Statement::Assert(claim) => {
            lemma_grew_by_eval(a, claim.expr, w.env, d);
            let value = semantics::eval(w.model, claim.expr, w.env, d);
            if value.1 is Ok && !semantics::satisfied(value.1->Ok_0) {
                let b = State { model: value.0, ..a };
                let message = "assertion failed"@;
                lemma_plain_failure_adds_on(value.0, f.rule, message, None);
                let end = semantics::plain_failure(value.0, f.rule, message, None).0;
                lemma_grew_by_finding(b, end, d);
                lemma_grew_transitive(a, b, State { model: end, ..b }, d);
            }
        },
        Statement::Modal(obligation) => {
            lemma_modal_grows(w, obligation, f);
        },
    }
}

proof fn lemma_statements_grow(w: World, body: Seq<Statement>, f: Frame)
    ensures
        grew(state_of(w), state_of(semantics::run_statements(w, body, f).0), f.in_derive),
    decreases body, 0int,
{
    if body.len() == 0 {
        assert(body =~= seq![]);
        semantics::lemma_no_statements(w, f);
        lemma_grew_reflexive(state_of(w), f.in_derive);
    } else {
        semantics::lemma_statements_step(w, body, f);
        lemma_statements_grow(w, body.drop_last(), f);
        let before = semantics::run_statements(w, body.drop_last(), f);
        if before.1 == Ok::<bool, Seq<char>>(false) {
            lemma_statement_grows(before.0, body.last(), f);
            lemma_grew_transitive(
                state_of(w),
                state_of(before.0),
                state_of(semantics::run_statement(before.0, body.last(), f).0),
                f.in_derive,
            );
        }
    }
}

proof fn lemma_loop_grows(w: World, var: Seq<char>, ids: Seq<EntityId>, body: Seq<Statement>, f: Frame)
    ensures
        grew(state_of(w), state_of(semantics::run_loop(w, var, ids, body, f).0), f.in_derive),
    decreases body, ids.len() + 1,
{
    let d = f.in_derive;
    if ids.len() == 0 {
        assert(ids =~= seq![]);
        semantics::lemma_no_loop(w, var, body, f);
        lemma_grew_reflexive(state_of(w), d);
    } else {
        semantics::lemma_loop_step(w, var, ids, body, f);
        lemma_loop_grows(w, var, ids.drop_last(), body, f);
        let before = semantics::run_loop(w, var, ids.drop_last(), body, f);
        if before.1 is Ok {
            let inner = semantics::loop_frame(f, var, ids.last());
            let visit = VisitView { rule: f.rule, binding: inner.binding };
            if !before.0.visited.contains(visit) {
                let start = World {
                    visited: before.0.visited.push(visit),
                    env: semantics::bound(before.0.env, var, EvalView::Entity(ids.last())),
                    ..before.0
                };
                lemma_grew_by_visit(state_of(before.0), visit, d);
                lemma_statements_grow(start, body, inner);
                let end = semantics::run_statements(start, body, inner).0;
                lemma_grew_transitive(state_of(before.0), state_of(start), state_of(end), d);
                lemma_grew_transitive(state_of(w), state_of(before.0), state_of(end), d);
            }
        }
    }
}

/// A guard skips the rest of its body: after an unmet `must` or `should`, no
/// statement of the body is executed.
pub proof fn lemma_guard_skips_rest(w: World, body: Seq<Statement>, rest: Seq<Statement>, f: Frame)
    requires
        semantics::run_statements(w, body, f).1 == Ok::<bool, Seq<char>>(true),
    ensures
        semantics::run_statements(w, body + rest, f) == semantics::run_statements(w, body, f),
    decreases rest.len(),
{
    if rest.len() == 0 {
        assert(body + rest =~= body);
    } else {
        lemma_guard_skips_rest(w, body, rest.drop_last(), f);
        semantics::lemma_statements_step(w, body + rest, f);
        assert((body + rest).drop_last() =~= body + rest.drop_last());
    }
}

/// A fault ends its body: no statement after it is executed.
pub proof fn lemma_fault_skips_rest(w: World, body: Seq<Statement>, rest: Seq<Statement>, f: Frame)
    requires
        semantics::run_statements(w, body, f).1 is Err,
    ensures
        semantics::run_statements(w, body + rest, f) == semantics::run_statements(w, body, f),
    decreases rest.len(),
{
    if rest.len() == 0 {
        assert(body + rest =~= body);
    } else {
        lemma_fault_skips_rest(w, body, rest.drop_last(), f);
        semantics::lemma_statements_step(w, body + rest, f);
        assert((body + rest).drop_last() =~= body + rest.drop_last());
    }
}

/// An `add` statement in a rule is refused, and nothing is changed.
pub proof fn lemma_rules_cannot_state(w: World, add: AddStmt, f: Frame)
    requires
        !f.in_derive,
    ensures
        semantics::run_statement(w, Statement::Add(add), f) == (
            w,
            Err::<bool, Seq<char>>("add statements not allowed in rules"@),
        ),
{
    reveal_with_fuel(semantics::run_statement, 1);
}

/// A rule that comes to an `add` statement fails there, with what was before it
/// done and nothing more.
pub proof fn lemma_rule_with_add_fails(
    s: State,
    name: Seq<char>,
    before: Seq<Statement>,
    add: AddStmt,
    rest: Seq<Statement>,
)
    requires
        ({
            let w = World { model: s.model, visited: s.visited, env: seq![] };
            let f = Frame { rule: name, binding: seq![], in_derive: false };
            semantics::run_statements(w, before, f).1 == Ok::<bool, Seq<char>>(false)
        }),
    ensures
        semantics::run_body(s, name, before + seq![Statement::Add(add)] + rest, false) == (
            semantics::run_body(s, name, before, false).0,
            Err::<(), Seq<char>>("add statements not allowed in rules"@),
        ),
{
    let w = World { model: s.model, visited: s.visited, env: seq![] };
    let f = Frame { rule: name, binding: seq![], in_derive: false };
    let body = before + seq![Statement::Add(add)];
    assert(body.drop_last() =~= before);
    semantics::lemma_statements_step(w, body, f);
    lemma_rules_cannot_state(semantics::run_statements(w, before, f).0, add, f);
    lemma_fault_skips_rest(w, body, rest, f);
}

/// A policy whose first rule begins with an `add` statement fails, with the graph
/// as the derives left it.
pub proof fn lemma_policy_refuses_add(
    m: ModelView,
    derives: Seq<Derive>,
    rules: Map<Seq<char>, Rule>,
    bindings: Seq<PolicyRuleView>,
    limit: nat,
    add: AddStmt,
)
    requires
        semantics::derive_passes(State { model: m, visited: seq![] }, derives, limit).1 is Ok,
        bindings.len() > 0,
        rules.contains_key(bindings[0].rule),
        rules[bindings[0].rule].body@.len() > 0,
        rules[bindings[0].rule].body@[0] == Statement::Add(add),
    ensures
        ({
            let start = State { model: m, visited: seq![] };
            let end = semantics::policy_run(m, derives, rules, bindings, limit);
            &&& end.1 == Err::<(), Seq<char>>("add statements not allowed in rules"@)
            &&& end.0.state.model == semantics::derive_passes(start, derives, limit).0.model
        }),
{
    let derived = semantics::derive_passes(State { model: m, visited: seq![] }, derives, limit);
    let state = State { visited: seq![], ..derived.0 };
    let rule = rules[bindings[0].rule];
    let w = World { model: state.model, visited: state.visited, env: seq![] };
    let f = Frame { rule: rule.name@, binding: seq![], in_derive: false };
    semantics::lemma_no_statements(w, f);
    let none = Seq::<Statement>::empty();
    lemma_rule_with_add_fails(state, rule.name@, none, add, rule.body@.skip(1));
    assert(none + seq![Statement::Add(add)] + rule.body@.skip(1) =~= rule.body@);
    lemma_first_fault_ends_policy(fresh(state), rules, bindings);
}

/// A fault in the first rule of a policy ends it.
proof fn lemma_first_fault_ends_policy(
    p: Progress,
    rules: Map<Seq<char>, Rule>,
    bindings: Seq<PolicyRuleView>,
)
    requires
        bindings.len() > 0,
        semantics::policy_step(p, rules, bindings[0]).1 is Err,
    ensures
        semantics::policy_steps(p, rules, bindings) == semantics::policy_step(p, rules, bindings[0]),
    decreases bindings.len(),
{
    if bindings.len() > 1 {
        assert(bindings.drop_last()[0] == bindings[0]);
        lemma_first_fault_ends_policy(p, rules, bindings.drop_last());
    } else {
        assert(semantics::policy_steps(p, rules, bindings.drop_last()) == (p, Ok::<(), Seq<char>>(())));
    }
}

/// An unmet `may` is reported, and the body goes on; an unmet `must` or
/// `should` stops it.
pub proof fn lemma_only_may_goes_on(w: World, s: ModalStmt, f: Frame)
    requires
        semantics::run_modal(w, s, f).1 is Ok,
        semantics::eval(w.model, s.expr, w.env, f.in_derive).1 is Ok,
        !semantics::satisfied(semantics::eval(w.model, s.expr, w.env, f.in_derive).1->Ok_0),
    ensures
        semantics::run_modal(w, s, f).1 == Ok::<bool, Seq<char>>(s.modal != Modal::May),
{
}

// ---------------------------------------------------------------------------
// Rules and derives
// ---------------------------------------------------------------------------

proof fn lemma_body_grows(s: State, name: Seq<char>, body: Seq<Statement>, in_derive: bool)
    ensures
        grew(s, semantics::run_body(s, name, body, in_derive).0, in_derive),
{
    let w = World { model: s.model, visited: s.visited, env: seq![] };
    lemma_statements_grow(w, body, Frame { rule: name, binding: seq![], in_derive });
    assert(state_of(w) == s);
}

proof fn lemma_pass_grows(s: State, derives: Seq<Derive>)
    ensures
        grew(s, semantics::derive_pass(s, derives).0, true),
    decreases derives.len(),
{
    if derives.len() == 0 {
        lemma_grew_reflexive(s, true);
    } else {
        lemma_pass_grows(s, derives.drop_last());
        let before = semantics::derive_pass(s, derives.drop_last());
        if before.1 is Ok {
            let last = derives.last();
            lemma_body_grows(before.0, last.name@, last.body@, true);
            lemma_grew_transitive(
                s,
                before.0,
                semantics::run_body(before.0, last.name@, last.body@, true).0,
                true,
            );
        }
    }
}

proof fn lemma_passes_grow(s: State, derives: Seq<Derive>, limit: nat)
    ensures
        grew(s, semantics::derive_passes(s, derives, limit).0, true),
    decreases limit,
{
    lemma_grew_reflexive(s, true);
    if limit > 0 {
        let pass = semantics::derive_pass(s, derives);
        lemma_pass_grows(s, derives);
        lemma_passes_grow(pass.0, derives, (limit - 1) as nat);
        lemma_grew_transitive(
            s,
            pass.0,
            semantics::derive_passes(pass.0, derives, (limit - 1) as nat).0,
            true,
        );
    }
}

/// Derives only add to the graph, also where one fails, and no loop body is
/// executed twice with the same loop variables.
pub proof fn lemma_derives_only_add(m: ModelView, derives: Seq<Derive>, limit: nat)
    ensures
        ({
            let end = semantics::derive_passes(
                State { model: m, visited: seq![] },
                derives,
                limit,
            ).0;
            &&& graph::extends(m, end.model)
            &&& end.visited.no_duplicates()
        }),
{
    lemma_passes_grow(State { model: m, visited: seq![] }, derives, limit);
    reveal(grew);
}

/// A rule leaves the graph that it looks at: all that it adds are statements on
/// new nodes, its findings.
pub proof fn lemma_rule_only_reports(s: State, name: Seq<char>, body: Seq<Statement>)
    requires
        semantics::run_body(s, name, body, false).0.model.ids_fit(),
    ensures
        graph::extends(s.model, semantics::run_body(s, name, body, false).0.model),
        only_reports(s.model, semantics::run_body(s, name, body, false).0.model),
{
    lemma_body_grows(s, name, body, false);
    reveal(grew);
}

/// The graph after `n` passes over the derives.
pub open spec fn passes(s: State, derives: Seq<Derive>, n: nat) -> (State, Result<(), Seq<char>>)
    decreases n,
{
    if n == 0 {
        (s, Ok(()))
    } else {
        let before = passes(s, derives, (n - 1) as nat);
        match before.1 {
            Err(e) => before,
            Ok(_) => semantics::derive_pass(before.0, derives),
        }
    }
}

proof fn lemma_passes_first(s: State, derives: Seq<Derive>, n: nat)
    requires
        n > 0,
        semantics::derive_pass(s, derives).1 is Ok,
    ensures
        passes(s, derives, n) == passes(
            semantics::derive_pass(s, derives).0,
            derives,
            (n - 1) as nat,
        ),
    decreases n,
{
    reveal_with_fuel(passes, 2);
    if n > 1 {
        lemma_passes_first(s, derives, (n - 1) as nat);
    }
}

/// Whether the derives ended after `n` passes, as they have to: at the limit, or
/// with a pass that made no statement, or that failed, and with no such pass
/// before.
pub open spec fn ended_after(s: State, derives: Seq<Derive>, limit: nat, n: nat) -> bool {
    &&& n <= limit
    &&& forall|k: nat|
        0 < k < n ==> (#[trigger] passes(s, derives, k)).1 is Ok && passes(
            s,
            derives,
            k,
        ).0.model.facts.len() != passes(s, derives, (k - 1) as nat).0.model.facts.len()
    &&& n == limit || (n > 0 && (passes(s, derives, n).1 is Err || passes(
        s,
        derives,
        n,
    ).0.model.facts.len() == passes(s, derives, (n - 1) as nat).0.model.facts.len()))
}

/// The derives run to a fixed point: they stop at the first pass that makes no
/// statement, or at the limit.
#[verifier::rlimit(50)]
pub proof fn lemma_derives_reach_fixed_point(s: State, derives: Seq<Derive>, limit: nat) -> (n: nat)
    ensures
        semantics::derive_passes(s, derives, limit) == passes(s, derives, n),
        ended_after(s, derives, limit, n),
    decreases limit,
{
    if limit == 0 {
        0
    } else {
        let pass = semantics::derive_pass(s, derives);
        reveal_with_fuel(passes, 2);
        if pass.1 is Err || pass.0.model.facts.len() == s.model.facts.len() {
            assert(passes(s, derives, 1) == pass);
            1
        } else {
            let rest = lemma_derives_reach_fixed_point(pass.0, derives, (limit - 1) as nat);
            let n = rest + 1;
            lemma_passes_first(s, derives, n);
            assert(passes(s, derives, 1) == pass);
            assert forall|k: nat| 0 < k < n implies (#[trigger] passes(s, derives, k)).1 is Ok
                && passes(s, derives, k).0.model.facts.len() != passes(
                s,
                derives,
                (k - 1) as nat,
            ).0.model.facts.len() by {
                lemma_passes_first(s, derives, k);
                if k > 1 {
                    lemma_passes_first(s, derives, (k - 1) as nat);
                    assert(passes(pass.0, derives, (k - 1) as nat).1 is Ok);
                }
            }
            if rest > 0 {
                lemma_passes_first(s, derives, rest);
            }
            n
        }
    }
}

// ---------------------------------------------------------------------------
// Policies
// ---------------------------------------------------------------------------

/// Whether a record is that of a rule of a modal that failed.
pub open spec fn failed(e: ExecutionView, modal: Modal) -> bool {
    e.modal == modal && !e.passed
}

/// Whether some rule of a modal failed.
pub open spec fn any_failed(trace: Seq<ExecutionView>, modal: Modal) -> bool {
    exists|i: int| 0 <= i < trace.len() && failed(#[trigger] trace[i], modal)
}

/// The outcome that the records of a policy amount to.
pub open spec fn outcome_of(trace: Seq<ExecutionView>) -> PolicyOutcome {
    if any_failed(trace, Modal::Must) {
        PolicyOutcome::Fail
    } else if any_failed(trace, Modal::Should) {
        PolicyOutcome::Degraded
    } else {
        PolicyOutcome::Pass
    }
}

/// A policy that has not begun.
pub open spec fn fresh(s: State) -> Progress {
    Progress { state: s, outcome: PolicyOutcome::Pass, trace: seq![], stopped: false }
}

proof fn lemma_any_failed_push(trace: Seq<ExecutionView>, e: ExecutionView, modal: Modal)
    ensures
        any_failed(trace.push(e), modal) <==> any_failed(trace, modal) || failed(e, modal),
{
    let longer = trace.push(e);
    if any_failed(trace, modal) {
        let i = choose|i: int| 0 <= i < trace.len() && failed(#[trigger] trace[i], modal);
        assert(failed(longer[i], modal));
    }
    if failed(e, modal) {
        assert(failed(longer[trace.len() as int], modal));
    }
    if any_failed(longer, modal) {
        let i = choose|i: int| 0 <= i < longer.len() && failed(#[trigger] longer[i], modal);
        if i < trace.len() {
            assert(failed(trace[i], modal));
        }
    }
}

/// The outcome of a policy is the one that its records amount to: `Fail` where a
/// must rule failed, else `Degraded` where a should rule failed, else `Pass`. A
/// must rule that fails is the last one executed. A rule passed where it added
/// no finding of the highest severity.
pub proof fn lemma_outcome_follows_trace(s: State, rules: Map<Seq<char>, Rule>, bindings: Seq<PolicyRuleView>)
    ensures
        ({
            let end = semantics::policy_steps(fresh(s), rules, bindings).0;
            &&& end.outcome == outcome_of(end.trace)
            &&& end.stopped == any_failed(end.trace, Modal::Must)
            &&& forall|i: int|
                0 <= i < end.trace.len() - 1 ==> !failed(#[trigger] end.trace[i], Modal::Must)
            &&& forall|i: int|
                0 <= i < end.trace.len() ==> ((#[trigger] end.trace[i]).passed <==> end.trace[i].findings
                    == 0)
        }),
    decreases bindings.len(),
{
    if bindings.len() > 0 {
        lemma_outcome_follows_trace(s, rules, bindings.drop_last());
        let before = semantics::policy_steps(fresh(s), rules, bindings.drop_last());
        let end = semantics::policy_steps(fresh(s), rules, bindings).0;
        if before.1 is Ok && end.trace.len() > before.0.trace.len() {
            let e = end.trace.last();
            lemma_any_failed_push(before.0.trace, e, Modal::Must);
            lemma_any_failed_push(before.0.trace, e, Modal::Should);
            assert(!before.0.stopped);
            assert forall|i: int| 0 <= i < end.trace.len() - 1 implies !failed(
                #[trigger] end.trace[i],
                Modal::Must,
            ) by {
                assert(end.trace[i] == before.0.trace[i]);
                if failed(before.0.trace[i], Modal::Must) {
                    assert(any_failed(before.0.trace, Modal::Must));
                }
            }
        }
    }
}

/// The rules of a policy that the records are about.
pub open spec fn executed(trace: Seq<ExecutionView>) -> Seq<PolicyRuleView> {
    Seq::new(
        trace.len(),
        |i: int|
            PolicyRuleView {
                policy: trace[i].policy,
                modal: trace[i].modal,
                rule: trace[i].rule,
            },
    )
}

/// The rules of a policy that are loaded, in order.
pub open spec fn loaded(bindings: Seq<PolicyRuleView>, rules: Map<Seq<char>, Rule>) -> Seq<PolicyRuleView>
    decreases bindings.len(),
{
    if bindings.len() == 0 {
        seq![]
    } else {
        let rest = loaded(bindings.drop_last(), rules);
        if rules.contains_key(bindings.last().rule) {
            rest.push(bindings.last())
        } else {
            rest
        }
    }
}

/// The rules of a policy are executed in its order, those that are not loaded
/// left out: all of them, unless a must rule failed or one could not be
/// executed.
pub proof fn lemma_policy_keeps_order(s: State, rules: Map<Seq<char>, Rule>, bindings: Seq<PolicyRuleView>)
    ensures
        ({
            let end = semantics::policy_steps(fresh(s), rules, bindings);
            &&& executed(end.0.trace).is_prefix_of(loaded(bindings, rules))
            &&& end.1 is Ok && !end.0.stopped ==> executed(end.0.trace) == loaded(bindings, rules)
        }),
    decreases bindings.len(),
{
    let end = semantics::policy_steps(fresh(s), rules, bindings);
    if bindings.len() == 0 {
        assert(executed(end.0.trace) =~= seq![]);
    } else {
        lemma_policy_keeps_order(s, rules, bindings.drop_last());
        let before = semantics::policy_steps(fresh(s), rules, bindings.drop_last());
        if before.1 is Ok && end.0.trace.len() > before.0.trace.len() {
            assert(executed(end.0.trace) =~= executed(before.0.trace).push(bindings.last()));
        }
    }
}

proof fn lemma_policy_grows(p: Progress, rules: Map<Seq<char>, Rule>, bindings: Seq<PolicyRuleView>)
    ensures
        grew(p.state, semantics::policy_steps(p, rules, bindings).0.state, false),
    decreases bindings.len(),
{
    if bindings.len() == 0 {
        lemma_grew_reflexive(p.state, false);
    } else {
        lemma_policy_grows(p, rules, bindings.drop_last());
        let before = semantics::policy_steps(p, rules, bindings.drop_last());
        let name = bindings.last().rule;
        if before.1 is Ok && !before.0.stopped && rules.contains_key(name) {
            let rule = rules[name];
            lemma_body_grows(before.0.state, rule.name@, rule.body@, false);
            lemma_grew_transitive(
                p.state,
                before.0.state,
                semantics::run_body(before.0.state, rule.name@, rule.body@, false).0,
                false,
            );
        }
    }
}

/// The rules of a policy look at the graph and leave it: all that they add are
/// statements on new nodes, their findings. No loop body is executed twice with
/// the same loop variables.
pub proof fn lemma_policy_only_reports(m: ModelView, rules: Map<Seq<char>, Rule>, bindings: Seq<PolicyRuleView>)
    ensures
        ({
            let end = semantics::policy_steps(
                fresh(State { model: m, visited: seq![] }),
                rules,
                bindings,
            ).0.state;
            &&& graph::extends(m, end.model)
            &&& end.model.ids_fit() ==> only_reports(m, end.model)
            &&& end.visited.no_duplicates()
        }),
{
    lemma_policy_grows(fresh(State { model: m, visited: seq![] }), rules, bindings);
    reveal(grew);
}

/// Both phases together: what was in the graph before stays, and what the rules
/// add to what the derives built are findings.
pub proof fn lemma_two_phases(
    m: ModelView,
    derives: Seq<Derive>,
    rules: Map<Seq<char>, Rule>,
    bindings: Seq<PolicyRuleView>,
    limit: nat,
)
    ensures
        ({
            let built = semantics::derive_passes(
                State { model: m, visited: seq![] },
                derives,
                limit,
            );
            let end = semantics::policy_run(m, derives, rules, bindings, limit);
            &&& graph::extends(m, built.0.model)
            &&& graph::extends(built.0.model, end.0.state.model)
            &&& end.0.state.model.ids_fit() ==> only_reports(
                built.0.model,
                end.0.state.model,
            )
        }),
{
    lemma_derives_only_add(m, derives, limit);
    let built = semantics::derive_passes(State { model: m, visited: seq![] }, derives, limit);
    graph::lemma_extends_reflexive(built.0.model);
    lemma_policy_only_reports(built.0.model, rules, bindings);
}

// ---------------------------------------------------------------------------
// Facts meet obligations
// ---------------------------------------------------------------------------

/// What a path of two steps from a variable leads to: the entities that the node
/// is linked to under the predicate that the second step names, and what it
/// contains with the type that the step names.
pub proof fn lemma_path_from_variable(
    m: ModelView,
    steps: Seq<QueryStep>,
    env: EnvView,
    node: EntityId,
    x: EntityId,
)
    requires
        steps.len() == 2,
        steps[0].node_test is Some,
        steps[0].node_test->0.namespace is None,
        steps[0].predicates@.len() == 0,
        semantics::lookup(env, steps[0].node_test->0.name@) == Some(EvalView::Entity(node)),
        steps[1].axis == Axis::Child,
        steps[1].node_test is Some,
        steps[1].predicates@.len() == 0,
    ensures
        semantics::query_value(m, steps, env).contains(x) <==> match m.resolve(
            steps[1].node_test->0.text(),
        ) {
            Some(named) => m.has(node, named, ValueView::Entity(x)) || (m.children(
                node,
            ).contains(x) && m.has_type(x, named)),
            None => false,
        },
{
    let step = steps[1];
    let first = |id: EntityId| paths::conditions_hold(m, id, steps[0].predicates@);
    let starts = semantics::start_nodes(steps, env);
    assert(starts =~= seq![node]);
    assert(starts.drop_last() =~= seq![]);
    assert(paths::passing(starts.drop_last(), first) =~= seq![]);
    assert(first(node));
    assert(paths::passing(starts, first) =~= seq![node]);
    let rest = steps.skip(1);
    assert(rest.len() == 1 && rest.last() == step);
    assert(paths::stepped_all(m, seq![node], rest.drop_last()) =~= seq![node]);
    let reach = |n: EntityId| paths::reached(m, step, n);
    let nodes = seq![node];
    assert(nodes.drop_last() =~= seq![]);
    assert(paths::gathered(nodes.drop_last(), reach) =~= seq![]);
    let reached = paths::reached(m, step, node);
    assert(paths::gathered(nodes, reach) =~= reached);
    traversal::lemma_distinct(
        paths::gathered(nodes, reach),
        |id: EntityId| paths::conditions_hold(m, id, step.predicates@),
    );
    if let Some(named) = m.resolve(step.node_test->0.text()) {
        let typed = paths::passing(m.children(node), |id: EntityId| m.has_type(id, named));
        let linked = view::entities_of(view::objects(m.facts, node, named));
        traversal::lemma_passing(m.children(node), |id: EntityId| m.has_type(id, named));
        graph::lemma_objects(m, node, named, ValueView::Entity(x));
        graph::lemma_entities(view::objects(m.facts, node, named), x);
        assert(reached =~= typed + linked);
        lemma_concat_contains(typed, linked, x);
    }
}

/// What is in two lists one after the other.
proof fn lemma_concat_contains(a: Seq<EntityId>, b: Seq<EntityId>, x: EntityId)
    ensures
        (a + b).contains(x) <==> a.contains(x) || b.contains(x),
{
    let all = a + b;
    if a.contains(x) {
        let i = choose|i: int| 0 <= i < a.len() && a[i] == x;
        assert(all[i] == x);
    }
    if b.contains(x) {
        let i = choose|i: int| 0 <= i < b.len() && b[i] == x;
        assert(all[a.len() + i] == x);
    }
}

/// An obligation that asks for a fact on a node is met once the fact is stated,
/// whatever else the graph holds: nothing is reported, and the graph stays as it
/// is.
pub proof fn lemma_fact_meets_obligation(
    w: World,
    s: ModalStmt,
    f: Frame,
    node: EntityId,
    fact: EntityId,
)
    requires
        s.expr is Query,
        ({
            let steps = s.expr->Query_0.path.steps@;
            &&& steps.len() == 2
            &&& steps[0].node_test is Some
            &&& steps[0].node_test->0.namespace is None
            &&& steps[0].predicates@.len() == 0
            &&& semantics::lookup(w.env, steps[0].node_test->0.name@) == Some(
                EvalView::Entity(node),
            )
            &&& steps[1].axis == Axis::Child
            &&& steps[1].node_test is Some
            &&& steps[1].predicates@.len() == 0
            &&& w.model.resolve(steps[1].node_test->0.text()) is Some
            &&& w.model.has(
                node,
                w.model.resolve(steps[1].node_test->0.text())->0,
                ValueView::Entity(fact),
            )
        }),
    ensures
        semantics::run_modal(w, s, f) == (w, Ok::<bool, Seq<char>>(false)),
{
    let steps = s.expr->Query_0.path.steps@;
    lemma_path_from_variable(w.model, steps, w.env, node, fact);
    let found = semantics::query_value(w.model, steps, w.env);
    assert(found.contains(fact));
    assert(found.len() > 0);
    assert(semantics::eval(w.model, s.expr, w.env, f.in_derive) == (
        w.model,
        Ok::<EvalView, Seq<char>>(EvalView::EntitySet(found)),
    ));
}

} // verus!
