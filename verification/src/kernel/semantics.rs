//! What expressions, statements, derives and policies mean.

use vstd::prelude::*;

use crate::kernel::ast::{
    AddExpr, AddStmt, Derive, Expr, MatchArm, MatchPattern, Modal, ModalMetadata, ModalStmt, QueryStep,
    Rule, Statement,
};
use crate::kernel::forms;
use crate::kernel::paths;
use crate::model::view::{self, Change, ModelView, ValueView};
use crate::model::EntityId;
use crate::text;

verus! {

// ---------------------------------------------------------------------------
// Values and environments
// ---------------------------------------------------------------------------

/// The value of an expression.
#[verifier::ext_equal]
pub enum EvalView {
    Entity(EntityId),
    EntitySet(Seq<EntityId>),
    Literal(Seq<char>),
    Empty,
}

/// Whether a value meets an obligation.
pub open spec fn satisfied(value: EvalView) -> bool {
    match value {
        EvalView::EntitySet(ids) => ids.len() > 0,
        EvalView::Entity(_) => true,
        EvalView::Literal(s) => s.len() > 0 && s != "false"@,
        EvalView::Empty => false,
    }
}

/// The nodes that a value stands for.
pub open spec fn nodes_of(value: EvalView) -> Seq<EntityId> {
    match value {
        EvalView::EntitySet(ids) => ids,
        EvalView::Entity(id) => seq![id],
        _ => seq![],
    }
}

/// Variables with their values, the one bound last at the end.
pub type EnvView = Seq<(Seq<char>, EvalView)>;

/// The value of a variable.
pub open spec fn lookup(env: EnvView, name: Seq<char>) -> Option<EvalView>
    decreases env.len(),
{
    if env.len() == 0 {
        None
    } else if env.last().0 == name {
        Some(env.last().1)
    } else {
        lookup(env.drop_last(), name)
    }
}

/// The environment without a variable.
pub open spec fn without(env: EnvView, name: Seq<char>) -> EnvView
    decreases env.len(),
{
    if env.len() == 0 {
        seq![]
    } else {
        let rest = without(env.drop_last(), name);
        if env.last().0 == name {
            rest
        } else {
            rest.push(env.last())
        }
    }
}

/// The environment after a variable was bound. A former value is forgotten.
pub open spec fn bound(env: EnvView, name: Seq<char>, value: EvalView) -> EnvView {
    without(env, name).push((name, value))
}

/// The entity bound last.
pub open spec fn context_entity(env: EnvView) -> Option<EntityId>
    decreases env.len(),
{
    if env.len() == 0 {
        None
    } else {
        match env.last().1 {
            EvalView::Entity(id) => Some(id),
            _ => context_entity(env.drop_last()),
        }
    }
}

// ---------------------------------------------------------------------------
// Queries in expressions
// ---------------------------------------------------------------------------

/// The nodes that a query starts from, where its first step names a variable.
pub open spec fn start_nodes(steps: Seq<QueryStep>, env: EnvView) -> Seq<EntityId> {
    if steps.len() == 0 {
        seq![]
    } else {
        match steps[0].node_test {
            Some(name) if name.namespace is None => match lookup(env, name.name@) {
                Some(value) => nodes_of(value),
                None => seq![],
            },
            _ => seq![],
        }
    }
}

/// The result of a query in an environment.
pub open spec fn query_value(m: ModelView, steps: Seq<QueryStep>, env: EnvView) -> Seq<EntityId> {
    let starts = start_nodes(steps, env);
    if starts.len() > 0 {
        let kept = paths::passing(
            starts,
            |id: EntityId| paths::conditions_hold(m, id, steps[0].predicates@),
        );
        paths::stepped_all(m, kept, steps.skip(1))
    } else {
        paths::query_result(m, steps)
    }
}

/// What a text is wanted for.
#[derive(Debug, Clone, Copy, PartialEq, Eq, Structural)]
pub enum TextUse {
    Match,
    As,
}

/// What a search for a text comes to.
pub enum TextFound {
    /// The text.
    Text(Seq<char>),
    /// No text, and the value that the whole expression has then.
    Settled(EvalView),
    /// A fault.
    Fault(Seq<char>),
}

/// The value of a choice or check whose text is missing.
pub open spec fn missing_text(u: TextUse) -> EvalView {
    match u {
        TextUse::Match => EvalView::Literal("false"@),
        TextUse::As => EvalView::Empty,
    }
}

/// The text that a query in a choice or check leads to.
pub open spec fn query_text(m: ModelView, steps: Seq<QueryStep>, env: EnvView, u: TextUse) -> TextFound {
    if steps.len() == 0 {
        TextFound::Fault(
            match u {
                TextUse::Match => "match query is empty"@,
                TextUse::As => "as() query is empty"@,
            },
        )
    } else {
        match steps[0].node_test {
            None => TextFound::Fault(
                match u {
                    TextUse::Match => "match query must start with variable"@,
                    TextUse::As => "as() query must start with variable"@,
                },
            ),
            Some(name) => if name.namespace is Some {
                TextFound::Fault(
                    match u {
                        TextUse::Match => "match on qualified name not supported"@,
                        TextUse::As => "as() on qualified name not supported"@,
                    },
                )
            } else {
                match lookup(env, name.name@) {
                    None => TextFound::Fault(
                        match u {
                            TextUse::Match => "undefined variable in match: "@ + name.name@,
                            TextUse::As => "undefined variable in as(): "@ + name.name@,
                        },
                    ),
                    Some(value) => if nodes_of(value).len() == 0 || steps.len() <= 1 {
                        match u {
                            TextUse::Match => TextFound::Fault(
                                "match on variable without path not supported"@,
                            ),
                            TextUse::As => TextFound::Settled(EvalView::Empty),
                        }
                    } else {
                        single_text(paths::all_literals(m, nodes_of(value), steps.skip(1)), u)
                    },
                }
            },
        }
    }
}

/// The only one of some texts.
pub open spec fn single_text(found: Seq<Seq<char>>, u: TextUse) -> TextFound {
    if found.len() == 1 {
        TextFound::Text(found[0])
    } else if found.len() == 0 {
        TextFound::Settled(missing_text(u))
    } else {
        TextFound::Fault(
            match u {
                TextUse::Match => "match requires single value, got "@ + text::decimal(found.len()),
                TextUse::As => "as() requires single value, got "@ + text::decimal(found.len()),
            },
        )
    }
}

/// The text of a value in a choice or check.
pub open spec fn value_text(value: EvalView, u: TextUse) -> TextFound {
    match value {
        EvalView::Literal(s) => TextFound::Text(s),
        EvalView::Empty => TextFound::Settled(missing_text(u)),
        _ => TextFound::Fault(
            match u {
                TextUse::Match => "match value must be a literal"@,
                TextUse::As => "as() requires literal value"@,
            },
        ),
    }
}

/// Whether a pattern matches a text.
pub open spec fn pattern_matches(pattern: MatchPattern, value: Seq<char>) -> bool {
    match pattern {
        MatchPattern::Else => true,
        MatchPattern::Variant(name) => name@ == value,
    }
}

/// Whether some pattern of an arm matches a text.
pub open spec fn arm_matches(arm: MatchArm, value: Seq<char>) -> bool {
    exists|i: int| 0 <= i < arm.patterns@.len() && pattern_matches(#[trigger] arm.patterns@[i], value)
}

/// The position of the first arm that matches, from a position on.
pub open spec fn matching_arm(arms: Seq<MatchArm>, value: Seq<char>, from: int) -> Option<int>
    decreases arms.len() - from,
{
    if from < 0 || from >= arms.len() {
        None
    } else if arm_matches(arms[from], value) {
        Some(from)
    } else {
        matching_arm(arms, value, from + 1)
    }
}

/// Whether a variant of a type bears a local name.
pub open spec fn has_variant(m: ModelView, kind: EntityId, local: Seq<char>) -> bool {
    match m.resolve("wa2:subTypeOf"@) {
        Some(p) => is_variant_name(m, p, kind, local),
        None => false,
    }
}

/// Whether an entity is a variant of a type with a local name.
pub open spec fn is_variant_name(
    m: ModelView,
    sub_type_of: EntityId,
    kind: EntityId,
    local: Seq<char>,
) -> bool {
    exists|i: int| #[trigger] is_variant_at(m, sub_type_of, kind, local, i)
}

/// Whether the entity at a position is a variant of a type with a local name.
pub open spec fn is_variant_at(
    m: ModelView,
    sub_type_of: EntityId,
    kind: EntityId,
    local: Seq<char>,
    i: int,
) -> bool {
    &&& 0 <= i < m.names.len()
    &&& m.has(view::id_at(i), sub_type_of, ValueView::Entity(kind))
    &&& text::local_part(m.name_of(view::id_at(i))) == local
}

/// The value of a check of a text against the variants of a type.
pub open spec fn checked(m: ModelView, kind: Seq<char>, value: Seq<char>) -> Result<
    EvalView,
    Seq<char>,
> {
    match m.resolve(kind) {
        None => Err("type '"@ + kind + "' not found for as() conversion"@),
        Some(id) => if has_variant(m, id, value) {
            Ok(EvalView::Literal(value))
        } else {
            Ok(EvalView::Empty)
        },
    }
}

// ---------------------------------------------------------------------------
// Expressions
// ---------------------------------------------------------------------------

/// The graph after a statement on a subject, with the subject.
pub open spec fn attached(m: ModelView, subject: EntityId, predicate: Seq<char>, object: EvalView) -> Change<
    EntityId,
> {
    let change = match object {
        EvalView::Entity(id) => m.apply(subject, predicate, ValueView::Entity(id)),
        EvalView::Literal(s) => m.apply(subject, predicate, ValueView::Literal(s)),
        _ => (m, Ok(())),
    };
    match object {
        EvalView::EntitySet(_) => (m, Err("cannot use set as object"@)),
        EvalView::Empty => (m, Err("cannot use empty as object"@)),
        _ => match change.1 {
            Ok(_) => (change.0, Ok(subject)),
            Err(e) => (change.0, Err("failed to add statement: "@ + e)),
        },
    }
}

/// The message on an expression, as messages show it, that denotes no entity.
pub open spec fn no_entity(form: Seq<char>) -> Seq<char> {
    "expression cannot be converted to entity: "@ + form
}

/// What an expression evaluates to, in a derive or in a rule, and the graph
/// after that.
pub open spec fn eval(m: ModelView, e: Expr, env: EnvView, in_derive: bool) -> Change<EvalView>
    decreases e,
{
    match e {
        Expr::Var(name, _) => match lookup(env, name@) {
            Some(value) => (m, Ok(value)),
            None => (m, Err("undefined variable: "@ + name@)),
        },
        Expr::Blank(_) => (
            m,
            Err(
                if in_derive {
                    "blank node in eval context - should be handled in add"@
                } else {
                    "blank nodes not allowed in rules"@
                },
            ),
        ),
        Expr::Query(query) => (m, Ok(EvalView::EntitySet(query_value(m, query.path.steps@, env)))),
        Expr::Add(add) => {
            let added = eval_add(m, *add, env, in_derive);
            (
                added.0,
                match added.1 {
                    Ok(id) => Ok(EvalView::Entity(id)),
                    Err(e) => Err(e),
                },
            )
        },
        Expr::QName(name) => match m.resolve(name.text()) {
            Some(id) => (m, Ok(EvalView::Entity(id))),
            None => (m, Err("unresolved name: "@ + name.text())),
        },
        Expr::String(s, _) => (m, Ok(EvalView::Literal(s@))),
        Expr::Bool(b, _) => (m, Ok(EvalView::Literal(text::truth(b)))),
        Expr::Empty(inner, _) => {
            let value = eval(m, *inner, env, in_derive);
            (
                value.0,
                match value.1 {
                    Ok(v) => Ok(
                        if satisfied(v) {
                            EvalView::Empty
                        } else {
                            EvalView::Literal("true"@)
                        },
                    ),
                    Err(e) => Err(e),
                },
            )
        },
        Expr::Match(choice) => {
            let found = match choice.value {
                Expr::Query(query) => (m, query_text(m, query.path.steps@, env, TextUse::Match)),
                _ => {
                    let value = eval(m, choice.value, env, in_derive);
                    (
                        value.0,
                        match value.1 {
                            Ok(v) => value_text(v, TextUse::Match),
                            Err(e) => TextFound::Fault(e),
                        },
                    )
                },
            };
            match found.1 {
                TextFound::Fault(e) => (found.0, Err(e)),
                TextFound::Settled(v) => (found.0, Ok(v)),
                TextFound::Text(s) => match matching_arm(choice.arms@, text::unquoted(s), 0) {
                    Some(i) if 0 <= i < choice.arms@.len() => eval(
                        found.0,
                        choice.arms@[i].result,
                        env,
                        in_derive,
                    ),
                    _ => (found.0, Err("no matching arm for value: "@ + text::unquoted(s))),
                },
            }
        },
        Expr::As(check) => {
            let found = match check.inner {
                Expr::Query(query) => (m, query_text(m, query.path.steps@, env, TextUse::As)),
                _ => {
                    let value = eval(m, check.inner, env, in_derive);
                    (
                        value.0,
                        match value.1 {
                            Ok(v) => value_text(v, TextUse::As),
                            Err(e) => TextFound::Fault(e),
                        },
                    )
                },
            };
            match found.1 {
                TextFound::Fault(e) => (found.0, Err(e)),
                TextFound::Settled(v) => (found.0, Ok(v)),
                TextFound::Text(s) => (
                    found.0,
                    checked(found.0, check.target_type.text(), text::unquoted(s)),
                ),
            }
        },
    }
}

/// What an `add` evaluates to: the subject, with the statement made.
pub open spec fn eval_add(m: ModelView, add: AddExpr, env: EnvView, in_derive: bool) -> Change<
    EntityId,
>
    decreases add,
{
    if !in_derive {
        (m, Err("add expressions not allowed in rules"@))
    } else {
        match eval_entity(m, add.subject, env, in_derive) {
            (m1, Err(e)) => (m1, Err(e)),
            (m1, Ok(subject)) => match eval(m1, add.object, env, in_derive) {
                (m2, Err(e)) => (m2, Err(e)),
                (m2, Ok(object)) => attached(m2, subject, add.predicate.text(), object),
            },
        }
    }
}

/// The entity that an expression denotes, in a derive or in a rule, and the
/// graph after that.
pub open spec fn eval_entity(m: ModelView, e: Expr, env: EnvView, in_derive: bool) -> Change<EntityId>
    decreases e,
{
    match e {
        Expr::Var(name, _) => (
            m,
            match lookup(env, name@) {
                Some(EvalView::Entity(id)) => Ok(id),
                Some(EvalView::EntitySet(ids)) => if ids.len() == 1 {
                    Ok(ids[0])
                } else {
                    Err(
                        "variable '"@ + name@ + "' is a set with "@ + text::decimal(ids.len())
                            + " elements, expected single entity"@,
                    )
                },
                Some(_) => Err("variable '"@ + name@ + "' is not an entity"@),
                None => Err("undefined variable: "@ + name@),
            },
        ),
        Expr::Blank(_) => if in_derive {
            (m.with_blank(), Ok(m.next_id()))
        } else {
            (m, Err("blank nodes not allowed in rules"@))
        },
        Expr::Query(query) => {
            let found = paths::query_result(m, query.path.steps@);
            (
                m,
                if found.len() == 1 {
                    Ok(found[0])
                } else if found.len() == 0 {
                    Err("query returned no results, expected single entity"@)
                } else {
                    Err(
                        "query returned "@ + text::decimal(found.len())
                            + " results, expected single entity"@,
                    )
                },
            )
        },
        Expr::QName(name) => (
            m,
            match m.resolve(name.text()) {
                Some(id) => Ok(id),
                None => Err("unresolved name: "@ + name.text()),
            },
        ),
        Expr::Add(add) => eval_add(m, *add, env, in_derive),
        Expr::As(_) => (m, Err("as() expression cannot be converted to entity"@)),
        _ => (m, Err(no_entity(forms::expr_form(e)))),
    }
}

// ---------------------------------------------------------------------------
// Findings
// ---------------------------------------------------------------------------

/// A change that comes after another one, with a prefix to its message.
pub open spec fn and_then(first: Change<()>, second: Change<()>, prefix: Seq<char>) -> Change<()> {
    match first.1 {
        Err(e) => (first.0, Err(e)),
        Ok(_) => match second.1 {
            Ok(_) => second,
            Err(e) => (second.0, Err(prefix + e)),
        },
    }
}

/// The word of a modal.
pub open spec fn modal_word(modal: Modal) -> Seq<char> {
    match modal {
        Modal::Must => "must"@,
        Modal::Should => "should"@,
        Modal::May => "may"@,
    }
}

/// The severity of a finding on an obligation.
pub open spec fn severity_name(modal: Modal) -> Seq<char> {
    match modal {
        Modal::Must => "core:Error"@,
        Modal::Should => "core:Warning"@,
        Modal::May => "core:Info"@,
    }
}

/// The graph with a new node that has the type of findings.
pub open spec fn new_failure(m: ModelView) -> Change<()> {
    and_then(
        (m.with_blank(), Ok(())),
        m.with_blank().apply_to(m.next_id(), "wa2:type"@, "core:AssertFailure"@),
        "failed to create failure node: "@,
    )
}

/// The graph after a literal was stated of a node.
pub open spec fn with_literal(
    c: Change<()>,
    node: EntityId,
    predicate: Seq<char>,
    literal: Option<Seq<char>>,
    prefix: Seq<char>,
) -> Change<()> {
    match literal {
        Some(s) => and_then(c, c.0.apply(node, predicate, ValueView::Literal(s)), prefix),
        None => c,
    }
}

/// The graph after a node was linked to an entity.
pub open spec fn with_link(
    c: Change<()>,
    node: EntityId,
    predicate: Seq<char>,
    entity: Option<EntityId>,
    prefix: Seq<char>,
) -> Change<()> {
    match entity {
        Some(id) => and_then(c, c.0.apply(node, predicate, ValueView::Entity(id)), prefix),
        None => c,
    }
}

/// The graph with a finding on an obligation that is not met.
pub open spec fn rich_failure(
    m: ModelView,
    rule: Seq<char>,
    subject: Option<EntityId>,
    area: Option<EntityId>,
    message: Option<Seq<char>>,
    modal: Modal,
) -> Change<()> {
    let node = m.next_id();
    let c1 = new_failure(m);
    let assertion = rule + ": "@ + modal_word(modal) + " obligation not satisfied"@;
    let c2 = with_literal(c1, node, "core:assertion"@, Some(assertion), "failed to set assertion: "@);
    let c3 = with_link(c2, node, "core:subject"@, subject, "failed to set subject: "@);
    let c4 = with_link(c3, node, "core:area"@, area, "failed to set area: "@);
    let c5 = with_literal(c4, node, "core:message"@, message, "failed to set message: "@);
    and_then(
        c5,
        c5.0.apply_to(node, "core:severity"@, severity_name(modal)),
        "failed to set severity: "@,
    )
}

/// The graph with a finding on an assertion that does not hold.
pub open spec fn plain_failure(
    m: ModelView,
    rule: Seq<char>,
    message: Seq<char>,
    context: Option<EntityId>,
) -> Change<()> {
    let node = m.next_id();
    let c1 = new_failure(m);
    let c2 = with_literal(
        c1,
        node,
        "core:assertion"@,
        Some(rule + ": "@ + message),
        "failed to set assertion message: "@,
    );
    with_link(c2, node, "core:subject"@, context, "failed to link failure to subject: "@)
}

// ---------------------------------------------------------------------------
// Statements
// ---------------------------------------------------------------------------

/// The loop variables around a statement, with their entities.
pub type BindingView = Seq<(Seq<char>, EntityId)>;

/// An execution of a loop body: the rule, and the loop variables.
pub struct VisitView {
    pub rule: Seq<char>,
    pub binding: BindingView,
}

/// What statements work on.
#[verifier::ext_equal]
pub struct World {
    pub model: ModelView,
    /// The loop bodies that were executed already.
    pub visited: Seq<VisitView>,
    pub env: EnvView,
}

/// The outcome of statements: whether a guard stopped them, or a message.
pub type Outcome = (World, Result<bool, Seq<char>>);

/// What surrounds a statement.
pub struct Frame {
    pub rule: Seq<char>,
    pub binding: BindingView,
    pub in_derive: bool,
}

/// The frame of the body of a loop.
pub open spec fn loop_frame(f: Frame, var: Seq<char>, id: EntityId) -> Frame {
    Frame { binding: f.binding.push((var, id)), ..f }
}

/// The outcome of a change of the model.
pub open spec fn settled(w: World, c: Change<()>) -> Outcome {
    (
        World { model: c.0, ..w },
        match c.1 {
            Ok(_) => Ok(false),
            Err(e) => Err(e),
        },
    )
}

/// The outcome of an `add` statement.
pub open spec fn run_add(w: World, add: AddStmt, f: Frame) -> Outcome {
    if !f.in_derive {
        (w, Err("add statements not allowed in rules"@))
    } else {
        match eval_entity(w.model, add.subject, w.env, f.in_derive) {
            (m1, Err(e)) => (World { model: m1, ..w }, Err(e)),
            (m1, Ok(subject)) => match eval(m1, add.object, w.env, f.in_derive) {
                (m2, Err(e)) => (World { model: m2, ..w }, Err(e)),
                (m2, Ok(object)) => {
                    let c = attached(m2, subject, add.predicate.text(), object);
                    settled(
                        w,
                        (
                            c.0,
                            match c.1 {
                                Ok(_) => Ok(()),
                                Err(e) => Err(e),
                            },
                        ),
                    )
                },
            },
        }
    }
}

/// The subject of a finding on an obligation: the one that is stated, or the
/// entity bound last.
pub open spec fn finding_subject(m: ModelView, meta: Option<ModalMetadata>, env: EnvView, in_derive: bool) -> Change<
    Option<EntityId>,
> {
    match meta {
        Some(data) => match data.subject {
            Some(e) => {
                let c = eval_entity(m, e, env, in_derive);
                (
                    c.0,
                    match c.1 {
                        Ok(id) => Ok(Some(id)),
                        Err(e) => Err(e),
                    },
                )
            },
            None => (m, Ok(context_entity(env))),
        },
        None => (m, Ok(context_entity(env))),
    }
}

/// The area of a finding on an obligation.
pub open spec fn finding_area(m: ModelView, meta: Option<ModalMetadata>) -> Option<EntityId> {
    match meta {
        Some(data) => match data.area {
            Some(name) => m.resolve(name.text()),
            None => None,
        },
        None => None,
    }
}

/// The message of a finding on an obligation.
pub open spec fn finding_message(meta: Option<ModalMetadata>) -> Option<Seq<char>> {
    match meta {
        Some(data) => data.message.deep_view(),
        None => None,
    }
}

/// The outcome of an obligation: a finding where it is not met, and, for a must
/// or should, a stop.
pub open spec fn run_modal(w: World, s: ModalStmt, f: Frame) -> Outcome {
    match eval(w.model, s.expr, w.env, f.in_derive) {
        (m1, Err(e)) => (World { model: m1, ..w }, Err(e)),
        (m1, Ok(value)) => if satisfied(value) {
            (World { model: m1, ..w }, Ok(false))
        } else {
            match finding_subject(m1, s.metadata, w.env, f.in_derive) {
                (m2, Err(e)) => (World { model: m2, ..w }, Err(e)),
                (m2, Ok(subject)) => {
                    let c = rich_failure(
                        m2,
                        f.rule,
                        subject,
                        finding_area(m2, s.metadata),
                        finding_message(s.metadata),
                        s.modal,
                    );
                    (
                        World { model: c.0, ..w },
                        match c.1 {
                            Ok(_) => Ok(s.modal != Modal::May),
                            Err(e) => Err(e),
                        },
                    )
                },
            }
        },
    }
}

/// The outcome of a statement.
#[verifier::opaque]
pub open spec fn run_statement(w: World, s: Statement, f: Frame) -> Outcome
    decreases s, 0int,
{
    match s {
        Statement::Let(binding) => match eval(w.model, binding.value, w.env, f.in_derive) {
            (m, Err(e)) => (World { model: m, ..w }, Err(e)),
            (m, Ok(value)) => (
                World { model: m, env: bound(w.env, binding.name@, value), ..w },
                Ok(false),
            ),
        },
        Statement::Add(add) => run_add(w, add, f),
        Statement::For(each) => match eval(w.model, each.collection, w.env, f.in_derive) {
            (m, Err(e)) => (World { model: m, ..w }, Err(e)),
            (m, Ok(value)) => run_loop(
                World { model: m, ..w },
                each.var@,
                nodes_of(value),
                each.body@,
                f,
            ),
        },
        Statement::If(choice) => match eval(w.model, choice.condition, w.env, f.in_derive) {
            (m, Err(e)) => (World { model: m, ..w }, Err(e)),
            (m, Ok(value)) => {
                let inner = World { model: m, ..w };
                if satisfied(value) {
                    finished(run_statements(inner, choice.then_body@, f))
                } else {
                    match choice.else_body {
                        Some(body) => finished(run_statements(inner, body@, f)),
                        None => (inner, Ok(false)),
                    }
                }
            },
        },
        Statement::Assert(claim) => match eval(w.model, claim.expr, w.env, f.in_derive) {
            (m, Err(e)) => (World { model: m, ..w }, Err(e)),
            (m, Ok(value)) => if satisfied(value) {
                (World { model: m, ..w }, Ok(false))
            } else {
                settled(w, plain_failure(m, f.rule, "assertion failed"@, None))
            },
        },
        Statement::Modal(obligation) => run_modal(w, obligation, f),
    }
}

/// The outcome of a body, seen from the statement that holds it: a guard stops
/// the body and no more.
pub open spec fn finished(o: Outcome) -> Outcome {
    (
        o.0,
        match o.1 {
            Ok(_) => Ok(false),
            Err(e) => Err(e),
        },
    )
}

/// The outcome of statements one after another, up to a guard or fault.
#[verifier::opaque]
pub open spec fn run_statements(w: World, body: Seq<Statement>, f: Frame) -> Outcome
    decreases body, 0int,
{
    if body.len() == 0 {
        (w, Ok(false))
    } else {
        let before = run_statements(w, body.drop_last(), f);
        match before.1 {
            Ok(false) => run_statement(before.0, body.last(), f),
            _ => before,
        }
    }
}

/// The outcome of a loop: its body runs once for each entity for which this rule
/// has not run it with the same loop variables.
#[verifier::opaque]
pub open spec fn run_loop(
    w: World,
    var: Seq<char>,
    ids: Seq<EntityId>,
    body: Seq<Statement>,
    f: Frame,
) -> Outcome
    decreases body, ids.len() + 1,
{
    if ids.len() == 0 {
        (w, Ok(false))
    } else {
        let before = run_loop(w, var, ids.drop_last(), body, f);
        match before.1 {
            Err(e) => before,
            Ok(_) => {
                let inner = loop_frame(f, var, ids.last());
                let visit = VisitView { rule: f.rule, binding: inner.binding };
                if before.0.visited.contains(visit) {
                    (before.0, Ok(false))
                } else {
                    let start = World {
                        visited: before.0.visited.push(visit),
                        env: bound(before.0.env, var, EvalView::Entity(ids.last())),
                        ..before.0
                    };
                    let end = finished(run_statements(start, body, inner));
                    (World { env: before.0.env, ..end.0 }, end.1)
                }
            },
        }
    }
}

/// No statements change nothing.
pub proof fn lemma_no_statements(w: World, f: Frame)
    ensures
        run_statements(w, seq![], f) == (w, Ok::<bool, Seq<char>>(false)),
{
    reveal_with_fuel(run_statement, 1);
    reveal_with_fuel(run_statements, 1);
}

/// One more statement is executed where no guard or fault came before.
pub proof fn lemma_statements_step(w: World, body: Seq<Statement>, f: Frame)
    requires
        body.len() > 0,
    ensures
        run_statements(w, body, f) == ({
            let before = run_statements(w, body.drop_last(), f);
            match before.1 {
                Ok(false) => run_statement(before.0, body.last(), f),
                _ => before,
            }
        }),
{
    reveal_with_fuel(run_statement, 1);
    reveal_with_fuel(run_statements, 1);
}

/// A loop over nothing changes nothing.
pub proof fn lemma_no_loop(w: World, var: Seq<char>, body: Seq<Statement>, f: Frame)
    ensures
        run_loop(w, var, seq![], body, f) == (w, Ok::<bool, Seq<char>>(false)),
{
    reveal_with_fuel(run_statements, 1);
    reveal_with_fuel(run_loop, 1);
}

/// What a loop does with one more entity.
pub open spec fn loop_step(
    before: World,
    var: Seq<char>,
    id: EntityId,
    body: Seq<Statement>,
    f: Frame,
) -> Outcome {
    let inner = loop_frame(f, var, id);
    let visit = VisitView { rule: f.rule, binding: inner.binding };
    if before.visited.contains(visit) {
        (before, Ok(false))
    } else {
        let start = World {
            visited: before.visited.push(visit),
            env: bound(before.env, var, EvalView::Entity(id)),
            ..before
        };
        let end = finished(run_statements(start, body, inner));
        (World { env: before.env, ..end.0 }, end.1)
    }
}

/// A loop over one more entity does one step more, where no fault came before.
pub proof fn lemma_loop_step(
    w: World,
    var: Seq<char>,
    ids: Seq<EntityId>,
    body: Seq<Statement>,
    f: Frame,
)
    requires
        ids.len() > 0,
    ensures
        run_loop(w, var, ids, body, f) == ({
            let before = run_loop(w, var, ids.drop_last(), body, f);
            match before.1 {
                Err(e) => before,
                Ok(_) => loop_step(before.0, var, ids.last(), body, f),
            }
        }),
{
    reveal_with_fuel(run_statements, 1);
    reveal_with_fuel(run_loop, 1);
}

// ---------------------------------------------------------------------------
// Rules and derives
// ---------------------------------------------------------------------------

/// The state between rules.
#[verifier::ext_equal]
pub struct State {
    pub model: ModelView,
    pub visited: Seq<VisitView>,
}

/// The outcome of a body that is executed for itself.
pub open spec fn run_body(s: State, name: Seq<char>, body: Seq<Statement>, in_derive: bool) -> (
    State,
    Result<(), Seq<char>>,
) {
    let w = World { model: s.model, visited: s.visited, env: seq![] };
    let end = run_statements(w, body, Frame { rule: name, binding: seq![], in_derive });
    (
        State { model: end.0.model, visited: end.0.visited },
        match end.1 {
            Ok(_) => Ok(()),
            Err(e) => Err(e),
        },
    )
}

/// The outcome of all derives, one after another.
pub open spec fn derive_pass(s: State, derives: Seq<Derive>) -> (State, Result<(), Seq<char>>)
    decreases derives.len(),
{
    if derives.len() == 0 {
        (s, Ok(()))
    } else {
        let before = derive_pass(s, derives.drop_last());
        match before.1 {
            Err(e) => before,
            Ok(_) => run_body(before.0, derives.last().name@, derives.last().body@, true),
        }
    }
}

/// The outcome of passes over the derives until one makes no statement, and of
/// no more than `limit`.
pub open spec fn derive_passes(s: State, derives: Seq<Derive>, limit: nat) -> (
    State,
    Result<(), Seq<char>>,
)
    decreases limit,
{
    if limit == 0 {
        (s, Ok(()))
    } else {
        let pass = derive_pass(s, derives);
        if pass.1 is Err || pass.0.model.facts.len() == s.model.facts.len() {
            pass
        } else {
            derive_passes(pass.0, derives, (limit - 1) as nat)
        }
    }
}

/// Whether an entity is a finding of the highest severity.
pub open spec fn is_error_finding(m: ModelView, id: EntityId) -> bool {
    match (m.resolve("core:AssertFailure"@), m.resolve("core:severity"@), m.resolve("core:Error"@)) {
        (Some(kind), Some(severity), Some(error)) => m.has_type(id, kind) && m.has(
            id,
            severity,
            ValueView::Entity(error),
        ),
        _ => false,
    }
}

/// How many of the first `n` entities are findings of the highest severity.
pub open spec fn error_findings(m: ModelView, n: nat) -> nat
    decreases n,
{
    if n == 0 {
        0
    } else {
        error_findings(m, (n - 1) as nat) + if is_error_finding(m, view::id_at(n - 1)) {
            1nat
        } else {
            0nat
        }
    }
}

/// How many findings of the highest severity there are.
pub open spec fn error_count(m: ModelView) -> nat {
    error_findings(m, m.names.len())
}

/// The result of a policy.
#[derive(Debug, Clone, Copy, PartialEq, Eq, Structural)]
pub enum PolicyOutcome {
    /// All must rules passed.
    Pass,
    /// All must rules passed, but some should rules failed.
    Degraded,
    /// At least one must rule failed (guard triggered).
    Fail,
}

/// A table of rules by name; a later rule with the same name stands for an
/// earlier one.
pub open spec fn listed(rules: Seq<Rule>) -> Map<Seq<char>, Rule>
    decreases rules.len(),
{
    if rules.len() == 0 {
        Map::empty()
    } else {
        listed(rules.drop_last()).insert(rules.last().name@, rules.last())
    }
}

/// A rule in a policy.
pub struct PolicyRuleView {
    pub policy: Seq<char>,
    pub modal: Modal,
    pub rule: Seq<char>,
}

/// All rules of a list, as obligations of a policy without a name.
pub open spec fn all_bindings(rules: Seq<Rule>) -> Seq<PolicyRuleView> {
    Seq::new(
        rules.len(),
        |i: int| PolicyRuleView { policy: seq![], modal: Modal::Must, rule: rules[i].name@ },
    )
}

/// The rules of a list that have a modal, in a policy without a name.
pub open spec fn modal_bindings(rules: Seq<Rule>, modals: Map<Seq<char>, Modal>) -> Seq<
    PolicyRuleView,
>
    decreases rules.len(),
{
    if rules.len() == 0 {
        seq![]
    } else {
        let rest = modal_bindings(rules.drop_last(), modals);
        let name = rules.last().name@;
        if modals.contains_key(name) {
            rest.push(PolicyRuleView { policy: seq![], modal: modals[name], rule: name })
        } else {
            rest
        }
    }
}

/// The record of the execution of a rule.
pub struct ExecutionView {
    pub policy: Seq<char>,
    pub rule: Seq<char>,
    pub modal: Modal,
    pub passed: bool,
    pub findings: nat,
}

/// How far a policy has come.
#[verifier::ext_equal]
pub struct Progress {
    pub state: State,
    pub outcome: PolicyOutcome,
    pub trace: Seq<ExecutionView>,
    /// Whether a must rule failed.
    pub stopped: bool,
}

/// How far a policy has come after one more of its rules.
pub open spec fn policy_step(p: Progress, rules: Map<Seq<char>, Rule>, b: PolicyRuleView) -> (
    Progress,
    Result<(), Seq<char>>,
) {
    if p.stopped || !rules.contains_key(b.rule) {
        (p, Ok(()))
    } else {
        let rule = rules[b.rule];
        let end = run_body(p.state, rule.name@, rule.body@, false);
        match end.1 {
            Err(e) => (Progress { state: end.0, ..p }, Err(e)),
            Ok(_) => {
                let before = error_count(p.state.model);
                let after = error_count(end.0.model);
                let findings = if after >= before {
                    (after - before) as nat
                } else {
                    0
                };
                let failed = findings > 0;
                let record = ExecutionView {
                    policy: b.policy,
                    rule: b.rule,
                    modal: b.modal,
                    passed: !failed,
                    findings,
                };
                (
                    Progress {
                        state: end.0,
                        outcome: if failed && b.modal == Modal::Must {
                            PolicyOutcome::Fail
                        } else if failed && b.modal == Modal::Should {
                            PolicyOutcome::Degraded
                        } else {
                            p.outcome
                        },
                        trace: p.trace.push(record),
                        stopped: failed && b.modal == Modal::Must,
                    },
                    Ok(()),
                )
            },
        }
    }
}

/// How far a policy comes with its rules in order, up to a must rule that fails.
pub open spec fn policy_steps(
    p: Progress,
    rules: Map<Seq<char>, Rule>,
    bindings: Seq<PolicyRuleView>,
) -> (Progress, Result<(), Seq<char>>)
    decreases bindings.len(),
{
    if bindings.len() == 0 {
        (p, Ok(()))
    } else {
        let before = policy_steps(p, rules, bindings.drop_last());
        match before.1 {
            Err(e) => before,
            Ok(_) => policy_step(before.0, rules, bindings.last()),
        }
    }
}

/// The outcome of both phases: the derives, then the rules of a policy.
pub open spec fn policy_run(
    m: ModelView,
    derives: Seq<Derive>,
    rules: Map<Seq<char>, Rule>,
    bindings: Seq<PolicyRuleView>,
    limit: nat,
) -> (Progress, Result<(), Seq<char>>) {
    let derived = derive_passes(State { model: m, visited: seq![] }, derives, limit);
    match derived.1 {
        Err(e) => (
            Progress {
                state: derived.0,
                outcome: PolicyOutcome::Pass,
                trace: seq![],
                stopped: false,
            },
            Err(e),
        ),
        Ok(_) => policy_steps(
            Progress {
                state: State { visited: seq![], ..derived.0 },
                outcome: PolicyOutcome::Pass,
                trace: seq![],
                stopped: false,
            },
            rules,
            bindings,
        ),
    }
}

} // verus!
