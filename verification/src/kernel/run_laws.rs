//! What expressions and statements do, whatever they are made of.

use vstd::prelude::*;

use crate::kernel::ast::{
    AddExpr, AddStmt, AsExpr, AssertStmt, Expr, ForStmt, IfStmt, LetStmt, MatchArm, MatchExpr,
    MatchPattern, Modal, ModalStmt, QueryStep, Span, Statement,
};
use crate::kernel::laws;
use crate::kernel::paths;
use crate::kernel::query_laws;
use crate::kernel::semantics::{
    self, EnvView, EvalView, Frame, VisitView, World,
};
use crate::model::laws as graph;
use crate::model::view::{self, Fact, ModelView, ValueView};
use crate::model::EntityId;
use crate::text;

verus! {

// ---------------------------------------------------------------------------
// Values
// ---------------------------------------------------------------------------

/// A truth value in an expression holds where it is true, and leaves the graph as
/// it is.
pub proof fn lemma_truth_values(m: ModelView, b: bool, span: Span, env: EnvView, in_derive: bool)
    ensures
        ({
            let value = semantics::eval(m, Expr::Bool(b, span), env, in_derive);
            &&& value.0 == m
            &&& value.1 is Ok
            &&& semantics::satisfied(value.1->Ok_0) == b
        }),
{
    reveal_strlit("true");
    reveal_strlit("false");
    assert("true"@.len() == 4);
    assert("false"@.len() == 5);
}

/// A text in an expression is that text; it holds unless it is empty or the word
/// for what is not true.
pub proof fn lemma_texts(m: ModelView, s: String, span: Span, env: EnvView, in_derive: bool)
    ensures
        ({
            let value = semantics::eval(m, Expr::String(s, span), env, in_derive);
            &&& value == (m, Ok::<EvalView, Seq<char>>(EvalView::Literal(s@)))
            &&& semantics::satisfied(EvalView::Literal(s@)) <==> s@ != "false"@ && s@ != ""@
        }),
{
    reveal_strlit("");
    if s@.len() == 0 {
        assert(s@ =~= ""@);
    }
}

/// A variable has the value that it was bound to last, in whatever expression it
/// stands.
pub proof fn lemma_variables(
    m: ModelView,
    name: String,
    span: Span,
    env: EnvView,
    value: EvalView,
    in_derive: bool,
)
    ensures
        semantics::eval(
            m,
            Expr::Var(name, span),
            semantics::bound(env, name@, value),
            in_derive,
        ) == (m, Ok::<EvalView, Seq<char>>(value)),
        semantics::lookup(env, name@) is None ==> semantics::eval(
            m,
            Expr::Var(name, span),
            env,
            in_derive,
        ).1 is Err,
{
    laws::lemma_bound_variable(env, name@, value, name@);
}

/// A value that stands for nodes holds exactly where it stands for some; nothing
/// never holds.
pub proof fn lemma_nodes_hold(ids: Seq<EntityId>, id: EntityId)
    ensures
        semantics::satisfied(EvalView::EntitySet(ids)) <==> exists|i: int|
            0 <= i < ids.len() && ids.contains(#[trigger] ids[i]),
        semantics::satisfied(EvalView::Entity(id)),
        !semantics::satisfied(EvalView::Empty),
        semantics::nodes_of(EvalView::EntitySet(ids)) == ids,
        semantics::nodes_of(EvalView::Entity(id)) == seq![id],
        semantics::nodes_of(EvalView::Empty).len() == 0,
{
    if ids.len() > 0 {
        assert(ids.contains(ids[0]));
    }
}

/// A query in an expression gives the set of what it leads to, and holds exactly
/// where it leads to something.
pub proof fn lemma_queries(m: ModelView, e: Expr, env: EnvView, in_derive: bool)
    requires
        e is Query,
    ensures
        ({
            let found = semantics::query_value(m, e->Query_0.path.steps@, env);
            let value = semantics::eval(m, e, env, in_derive);
            &&& value == (m, Ok::<EvalView, Seq<char>>(EvalView::EntitySet(found)))
            &&& semantics::satisfied(value.1->Ok_0) <==> exists|id: EntityId| #[trigger]
                found.contains(id)
        }),
{
    let found = semantics::query_value(m, e->Query_0.path.steps@, env);
    if found.len() > 0 {
        assert(found.contains(found[0]));
    }
}

/// A name in an expression is the entity that it denotes, and a fault where it
/// denotes none.
pub proof fn lemma_names(m: ModelView, e: Expr, env: EnvView, in_derive: bool)
    requires
        e is QName,
    ensures
        ({
            let id = m.resolve(e->QName_0.text());
            let value = semantics::eval(m, e, env, in_derive);
            &&& value.0 == m
            &&& value.1 is Ok <==> id is Some
            &&& id is Some ==> value.1 == Ok::<EvalView, Seq<char>>(EvalView::Entity(id->0))
            &&& id is Some ==> semantics::eval_entity(m, e, env, in_derive) == (
                m,
                Ok::<EntityId, Seq<char>>(id->0),
            )
        }),
{
}

/// Where an entity is asked for, a variable gives its entity or the only one of
/// its set, and nothing else.
pub proof fn lemma_entity_of_variable(
    m: ModelView,
    name: String,
    span: Span,
    env: EnvView,
    in_derive: bool,
    id: EntityId,
)
    ensures
        semantics::eval_entity(m, Expr::Var(name, span), env, in_derive).0 == m,
        semantics::eval_entity(m, Expr::Var(name, span), env, in_derive).1 == Ok::<
            EntityId,
            Seq<char>,
        >(id) <==> semantics::lookup(env, name@) is Some && semantics::nodes_of(
            semantics::lookup(env, name@)->0,
        ) == seq![id],
{
    if let Some(value) = semantics::lookup(env, name@) {
        match value {
            EvalView::EntitySet(ids) => {
                if ids.len() == 1 {
                    assert(ids =~= seq![ids[0]]);
                }
            },
            EvalView::Entity(other) => {
                assert(seq![other][0] == other);
                assert(seq![id][0] == id);
            },
            _ => {},
        }
    }
}

/// Where an entity is asked for, a query gives its only result.
pub proof fn lemma_entity_of_query(m: ModelView, e: Expr, env: EnvView, in_derive: bool, id: EntityId)
    requires
        e is Query,
    ensures
        semantics::eval_entity(m, e, env, in_derive).0 == m,
        semantics::eval_entity(m, e, env, in_derive).1 == Ok::<EntityId, Seq<char>>(id)
            <==> paths::query_result(m, e->Query_0.path.steps@) == seq![id],
{
    let found = paths::query_result(m, e->Query_0.path.steps@);
    if found.len() == 1 {
        assert(found =~= seq![found[0]]);
    }
}

// ---------------------------------------------------------------------------
// Choices
// ---------------------------------------------------------------------------

/// Whether an arm is for a text: at some position it has the text, or stands for
/// everything else.
pub open spec fn is_for(arm: MatchArm, t: Seq<char>) -> bool {
    exists|j: int|
        0 <= j < arm.patterns@.len() && match #[trigger] arm.patterns@[j] {
            MatchPattern::Else => true,
            MatchPattern::Variant(name) => name@ == t,
        }
}

/// Whether an arm is the first one for a text.
pub open spec fn is_first_for(arms: Seq<MatchArm>, t: Seq<char>, i: int) -> bool {
    &&& 0 <= i < arms.len()
    &&& is_for(arms[i], t)
    &&& forall|k: int| 0 <= k < i ==> !is_for(#[trigger] arms[k], t)
}

proof fn lemma_arm_matches(arm: MatchArm, t: Seq<char>)
    ensures
        semantics::arm_matches(arm, t) <==> is_for(arm, t),
{
    if is_for(arm, t) {
        let j = choose|j: int|
            0 <= j < arm.patterns@.len() && match #[trigger] arm.patterns@[j] {
                MatchPattern::Else => true,
                MatchPattern::Variant(name) => name@ == t,
            };
        assert(semantics::pattern_matches(arm.patterns@[j], t));
    }
    if semantics::arm_matches(arm, t) {
        let j = choose|j: int|
            0 <= j < arm.patterns@.len() && semantics::pattern_matches(
                #[trigger] arm.patterns@[j],
                t,
            );
        assert(match arm.patterns@[j] {
            MatchPattern::Else => true,
            MatchPattern::Variant(name) => name@ == t,
        });
    }
}

proof fn lemma_matching_arm(arms: Seq<MatchArm>, t: Seq<char>, from: int)
    requires
        0 <= from <= arms.len(),
        forall|k: int| 0 <= k < from ==> !is_for(#[trigger] arms[k], t),
    ensures
        forall|i: int| #[trigger]
            is_first_for(arms, t, i) <==> semantics::matching_arm(arms, t, from) == Some(i),
        semantics::matching_arm(arms, t, from) is None <==> forall|k: int|
            0 <= k < arms.len() ==> !is_for(#[trigger] arms[k], t),
    decreases arms.len() - from,
{
    if from < arms.len() {
        lemma_arm_matches(arms[from], t);
        if is_for(arms[from], t) {
            assert(is_first_for(arms, t, from));
        } else {
            lemma_matching_arm(arms, t, from + 1);
        }
    }
}

/// A choice by a text has the value of the first arm that is for the text, and is
/// a fault where none is: whatever the other arms and patterns are.
pub proof fn lemma_choice_takes_first_arm(
    m: ModelView,
    choice: Box<MatchExpr>,
    env: EnvView,
    in_derive: bool,
    s: Seq<char>,
    i: int,
)
    requires
        !(choice.value is Query),
        semantics::eval(m, choice.value, env, in_derive).1 == Ok::<EvalView, Seq<char>>(
            EvalView::Literal(s),
        ),
    ensures
        ({
            let m1 = semantics::eval(m, choice.value, env, in_derive).0;
            let value = semantics::eval(m, Expr::Match(choice), env, in_derive);
            &&& is_first_for(choice.arms@, text::unquoted(s), i) ==> value == semantics::eval(
                m1,
                choice.arms@[i].result,
                env,
                in_derive,
            )
            &&& (forall|k: int|
                0 <= k < choice.arms@.len() ==> !is_for(
                    #[trigger] choice.arms@[k],
                    text::unquoted(s),
                )) ==> value.0 == m1 && value.1 is Err
        }),
{
    lemma_matching_arm(choice.arms@, text::unquoted(s), 0);
}

/// A choice by what a path from a variable leads to goes by its only text; it does
/// not hold where there is none, and is a fault where there are several.
pub proof fn lemma_choice_by_path(
    m: ModelView,
    choice: Box<MatchExpr>,
    env: EnvView,
    in_derive: bool,
    i: int,
)
    requires
        choice.value is Query,
        goes_from_variable(choice.value->Query_0.path.steps@, env),
    ensures
        ({
            let found = texts_from_variable(m, choice.value->Query_0.path.steps@, env);
            let value = semantics::eval(m, Expr::Match(choice), env, in_derive);
            &&& found.len() == 0 ==> value.0 == m && value.1 is Ok && !semantics::satisfied(
                value.1->Ok_0,
            )
            &&& found.len() > 1 ==> value.0 == m && value.1 is Err
            &&& found.len() == 1 && is_first_for(choice.arms@, text::unquoted(found[0]), i)
                ==> value == semantics::eval(m, choice.arms@[i].result, env, in_derive)
            &&& found.len() == 1 && (forall|k: int|
                0 <= k < choice.arms@.len() ==> !is_for(
                    #[trigger] choice.arms@[k],
                    text::unquoted(found[0]),
                )) ==> value.0 == m && value.1 is Err
        }),
{
    let steps = choice.value->Query_0.path.steps@;
    let found = texts_from_variable(m, steps, env);
    if found.len() == 1 {
        lemma_matching_arm(choice.arms@, text::unquoted(found[0]), 0);
    }
}

/// Whether a path goes on from a variable that stands for nodes.
pub open spec fn goes_from_variable(steps: Seq<QueryStep>, env: EnvView) -> bool {
    &&& steps.len() > 1
    &&& steps[0].node_test is Some
    &&& steps[0].node_test->0.namespace is None
    &&& semantics::lookup(env, steps[0].node_test->0.name@) is Some
    &&& semantics::nodes_of(semantics::lookup(env, steps[0].node_test->0.name@)->0).len() > 0
}

/// The texts that a path from a variable leads to, node by node.
pub open spec fn texts_from_variable(m: ModelView, steps: Seq<QueryStep>, env: EnvView) -> Seq<
    Seq<char>,
> {
    paths::all_literals(
        m,
        semantics::nodes_of(semantics::lookup(env, steps[0].node_test->0.name@)->0),
        steps.skip(1),
    )
}

/// A path from a variable leads to a text exactly where it shows the text from one
/// of the nodes of the variable.
pub proof fn lemma_texts_from_variable(
    m: ModelView,
    steps: Seq<QueryStep>,
    env: EnvView,
    t: Seq<char>,
)
    requires
        goes_from_variable(steps, env),
    ensures
        texts_from_variable(m, steps, env).contains(t) <==> exists|n: EntityId|
            semantics::nodes_of(
                semantics::lookup(env, steps[0].node_test->0.name@)->0,
            ).contains(n) && #[trigger] query_laws::shows(m, n, steps.skip(1), t),
{
    let nodes = semantics::nodes_of(semantics::lookup(env, steps[0].node_test->0.name@)->0);
    let rest = steps.skip(1);
    let f = |n: EntityId| paths::path_literals(m, n, rest);
    query_laws::lemma_gathered(nodes, f, t);
    if texts_from_variable(m, steps, env).contains(t) {
        let n = choose|n: EntityId| nodes.contains(n) && #[trigger] f(n).contains(t);
        query_laws::lemma_path_shows(m, n, rest, t);
    }
    if exists|n: EntityId| nodes.contains(n) && #[trigger] query_laws::shows(m, n, rest, t) {
        let n = choose|n: EntityId|
            nodes.contains(n) && #[trigger] query_laws::shows(m, n, rest, t);
        query_laws::lemma_path_shows(m, n, rest, t);
        assert(f(n).contains(t));
    }
}

/// Whether some entity is a variant of a type and has a local name.
pub open spec fn is_variant(m: ModelView, kind: EntityId, local: Seq<char>) -> bool {
    exists|i: int|
        0 <= i < m.names.len() && #[trigger] query_laws::is_linked(
            m,
            EntityId(i as u32),
            "wa2:subTypeOf"@,
            kind,
        ) && text::local_part(m.name_of(EntityId(i as u32))) == local
}

/// A check of a text against a type gives the text exactly where the type has a
/// variant of that name, and nothing else where it has not; it is a fault where
/// there is no such type.
pub proof fn lemma_check_finds_variant(
    m: ModelView,
    check: Box<AsExpr>,
    env: EnvView,
    in_derive: bool,
    s: Seq<char>,
)
    requires
        !(check.inner is Query),
        semantics::eval(m, check.inner, env, in_derive).1 == Ok::<EvalView, Seq<char>>(
            EvalView::Literal(s),
        ),
        semantics::eval(m, check.inner, env, in_derive).0.ids_fit(),
    ensures
        ({
            let m1 = semantics::eval(m, check.inner, env, in_derive).0;
            let t = text::unquoted(s);
            let kind = m1.resolve(check.target_type.text());
            let value = semantics::eval(m, Expr::As(check), env, in_derive);
            &&& value.0 == m1
            &&& value.1 is Err <==> kind is None
            &&& kind is Some && is_variant(m1, kind->0, t) ==> value.1 == Ok::<
                EvalView,
                Seq<char>,
            >(EvalView::Literal(t))
            &&& kind is Some && !is_variant(m1, kind->0, t) ==> value.1 == Ok::<
                EvalView,
                Seq<char>,
            >(EvalView::Empty)
        }),
{
    let m1 = semantics::eval(m, check.inner, env, in_derive).0;
    let t = text::unquoted(s);
    if let Some(kind) = m1.resolve(check.target_type.text()) {
        lemma_has_variant(m1, kind, t);
    }
}

proof fn lemma_has_variant(m: ModelView, kind: EntityId, t: Seq<char>)
    requires
        m.ids_fit(),
    ensures
        semantics::has_variant(m, kind, t) <==> is_variant(m, kind, t),
{
    if let Some(p) = m.resolve("wa2:subTypeOf"@) {
        if semantics::has_variant(m, kind, t) {
            let i = choose|i: int| #[trigger] semantics::is_variant_at(m, p, kind, t, i);
            graph::lemma_id_at(i);
            assert(view::id_at(i) == EntityId(i as u32));
            assert(query_laws::is_linked(m, EntityId(i as u32), "wa2:subTypeOf"@, kind));
        }
        if is_variant(m, kind, t) {
            let i = choose|i: int|
                0 <= i < m.names.len() && #[trigger] query_laws::is_linked(
                    m,
                    EntityId(i as u32),
                    "wa2:subTypeOf"@,
                    kind,
                ) && text::local_part(m.name_of(EntityId(i as u32))) == t;
            graph::lemma_id_at(i);
            assert(view::id_at(i) == EntityId(i as u32));
            assert(semantics::is_variant_at(m, p, kind, t, i));
        }
    }
}

// ---------------------------------------------------------------------------
// Additions
// ---------------------------------------------------------------------------

/// What an evaluated object is stated as.
pub open spec fn stated_as(object: EvalView) -> Option<ValueView> {
    match object {
        EvalView::Entity(id) => Some(ValueView::Entity(id)),
        EvalView::Literal(s) => Some(ValueView::Literal(s)),
        _ => None,
    }
}

/// An addition in a derive has its subject as its value, and makes exactly the
/// statement of the evaluated object on the subject; sets and nothing cannot be
/// stated.
pub proof fn lemma_add_makes_statement(
    m: ModelView,
    add: Box<AddExpr>,
    env: EnvView,
    fact: Fact,
)
    requires
        semantics::eval_entity(m, add.subject, env, true).1 is Ok,
        semantics::eval(
            semantics::eval_entity(m, add.subject, env, true).0,
            add.object,
            env,
            true,
        ).1 is Ok,
    ensures
        ({
            let subject = semantics::eval_entity(m, add.subject, env, true).1->Ok_0;
            let m1 = semantics::eval_entity(m, add.subject, env, true).0;
            let object = semantics::eval(m1, add.object, env, true);
            let end = semantics::eval(m, Expr::Add(add), env, true);
            let predicate = end.0.resolve(add.predicate.text());
            &&& stated_as(object.1->Ok_0) is None ==> end.0 == object.0 && end.1 is Err
            &&& end.1 is Ok ==> end.1 == Ok::<EvalView, Seq<char>>(EvalView::Entity(subject))
            &&& end.1 is Ok ==> predicate is Some && (end.0.facts.contains(fact)
                <==> object.0.facts.contains(fact) || fact == Fact {
                subject,
                predicate: predicate->0,
                object: stated_as(object.1->Ok_0)->0,
            })
            &&& end.1 is Err ==> end.0 == object.0
        }),
{
    reveal_with_fuel(semantics::eval, 2);
    reveal_with_fuel(semantics::eval_add, 2);
    reveal_with_fuel(semantics::eval_entity, 2);
    let subject = semantics::eval_entity(m, add.subject, env, true).1->Ok_0;
    let m1 = semantics::eval_entity(m, add.subject, env, true).0;
    let object = semantics::eval(m1, add.object, env, true);
    lemma_attached(object.0, subject, add.predicate.text(), object.1->Ok_0, fact);
}

proof fn lemma_attached(
    m: ModelView,
    subject: EntityId,
    predicate: Seq<char>,
    object: EvalView,
    fact: Fact,
)
    ensures
        ({
            let end = semantics::attached(m, subject, predicate, object);
            let p = end.0.resolve(predicate);
            &&& stated_as(object) is None ==> end.0 == m && end.1 is Err
            &&& end.1 is Ok ==> end.1 == Ok::<EntityId, Seq<char>>(subject)
            &&& end.1 is Ok ==> p is Some && (end.0.facts.contains(fact) <==> m.facts.contains(fact)
                || fact == Fact { subject, predicate: p->0, object: stated_as(object)->0 })
            &&& end.1 is Err ==> end.0 == m
        }),
{
    if let Some(value) = stated_as(object) {
        graph::lemma_apply_then_has(m, subject, predicate, value);
        if m.apply(subject, predicate, value).1 is Ok {
            graph::lemma_apply_adds_one(m, subject, predicate, value, fact);
        }
    }
}

/// An `add` statement in a derive makes exactly its statement.
pub proof fn lemma_add_statement_states(w: World, add: AddStmt, f: Frame, fact: Fact)
    requires
        f.in_derive,
        semantics::eval_entity(w.model, add.subject, w.env, true).1 is Ok,
        semantics::eval(
            semantics::eval_entity(w.model, add.subject, w.env, true).0,
            add.object,
            w.env,
            true,
        ).1 is Ok,
        semantics::run_statement(w, Statement::Add(add), f).1 is Ok,
    ensures
        ({
            let subject = semantics::eval_entity(w.model, add.subject, w.env, true).1->Ok_0;
            let m1 = semantics::eval_entity(w.model, add.subject, w.env, true).0;
            let object = semantics::eval(m1, add.object, w.env, true);
            let end = semantics::run_statement(w, Statement::Add(add), f);
            let predicate = end.0.model.resolve(add.predicate.text());
            &&& end.1 == Ok::<bool, Seq<char>>(false)
            &&& end.0.env == w.env && end.0.visited == w.visited
            &&& predicate is Some && stated_as(object.1->Ok_0) is Some
            &&& end.0.model.facts.contains(fact) <==> object.0.facts.contains(fact) || fact
                == Fact {
                subject,
                predicate: predicate->0,
                object: stated_as(object.1->Ok_0)->0,
            }
        }),
{
    reveal_with_fuel(semantics::run_statement, 1);
    let subject = semantics::eval_entity(w.model, add.subject, w.env, true).1->Ok_0;
    let m1 = semantics::eval_entity(w.model, add.subject, w.env, true).0;
    let object = semantics::eval(m1, add.object, w.env, true);
    lemma_attached(object.0, subject, add.predicate.text(), object.1->Ok_0, fact);
}

// ---------------------------------------------------------------------------
// Statements
// ---------------------------------------------------------------------------

/// A condition that holds has its body executed, from the graph after the
/// condition; one that does not has the other body executed, where there is one,
/// and changes nothing more where there is none. A guard ends the body and no
/// more; a fault in it is the fault of the whole.
pub proof fn lemma_if_executes_branch(w: World, choice: IfStmt, f: Frame)
    requires
        semantics::eval(w.model, choice.condition, w.env, f.in_derive).1 is Ok,
    ensures
        ({
            let tested = semantics::eval(w.model, choice.condition, w.env, f.in_derive);
            let inner = World { model: tested.0, ..w };
            let end = semantics::run_statement(w, Statement::If(choice), f);
            let first = semantics::run_statements(inner, choice.then_body@, f);
            &&& semantics::satisfied(tested.1->Ok_0) ==> {
                &&& end.0 == first.0
                &&& first.1 is Ok ==> end.1 == Ok::<bool, Seq<char>>(false)
                &&& first.1 is Err ==> end.1 == first.1
            }
            &&& !semantics::satisfied(tested.1->Ok_0) && choice.else_body is Some ==> {
                let second = semantics::run_statements(inner, choice.else_body->0@, f);
                &&& end.0 == second.0
                &&& second.1 is Ok ==> end.1 == Ok::<bool, Seq<char>>(false)
                &&& second.1 is Err ==> end.1 == second.1
            }
            &&& !semantics::satisfied(tested.1->Ok_0) && choice.else_body is None ==> end == (
                inner,
                Ok::<bool, Seq<char>>(false),
            )
        }),
{
    reveal_with_fuel(semantics::run_statement, 1);
    reveal_with_fuel(semantics::run_statements, 1);
}

/// A fault in what a statement evaluates first is the fault of the statement.
pub proof fn lemma_fault_in_expression(w: World, s: Statement, f: Frame)
    requires
        match s {
            Statement::Let(x) => semantics::eval(w.model, x.value, w.env, f.in_derive).1 is Err,
            Statement::For(x) => semantics::eval(
                w.model,
                x.collection,
                w.env,
                f.in_derive,
            ).1 is Err,
            Statement::If(x) => semantics::eval(
                w.model,
                x.condition,
                w.env,
                f.in_derive,
            ).1 is Err,
            Statement::Assert(x) => semantics::eval(w.model, x.expr, w.env, f.in_derive).1 is Err,
            Statement::Modal(x) => semantics::eval(w.model, x.expr, w.env, f.in_derive).1 is Err,
            Statement::Add(_) => false,
        },
    ensures
        ({
            let e = match s {
                Statement::Let(x) => x.value,
                Statement::For(x) => x.collection,
                Statement::If(x) => x.condition,
                Statement::Assert(x) => x.expr,
                Statement::Modal(x) => x.expr,
                Statement::Add(x) => x.object,
            };
            let fault = semantics::eval(w.model, e, w.env, f.in_derive).1->Err_0;
            semantics::run_statement(w, s, f).1 == Err::<bool, Seq<char>>(fault)
        }),
{
    reveal_with_fuel(semantics::run_statement, 1);
}

/// A `let` binds its variable to the value, leaves the other variables as they
/// are, and does nothing else.
pub proof fn lemma_let_binds(w: World, binding: LetStmt, f: Frame, other: Seq<char>)
    requires
        semantics::eval(w.model, binding.value, w.env, f.in_derive).1 is Ok,
    ensures
        ({
            let value = semantics::eval(w.model, binding.value, w.env, f.in_derive);
            let end = semantics::run_statement(w, Statement::Let(binding), f);
            &&& end.1 == Ok::<bool, Seq<char>>(false)
            &&& end.0.model == value.0
            &&& end.0.visited == w.visited
            &&& semantics::lookup(end.0.env, binding.name@) == Some(value.1->Ok_0)
            &&& other != binding.name@ ==> semantics::lookup(end.0.env, other)
                == semantics::lookup(w.env, other)
        }),
{
    reveal_with_fuel(semantics::run_statement, 1);
    let value = semantics::eval(w.model, binding.value, w.env, f.in_derive);
    laws::lemma_bound_variable(w.env, binding.name@, value.1->Ok_0, other);
}

/// Statements in two parts: the second part is executed from where the first one
/// ended, unless a guard or a fault ended that.
pub proof fn lemma_statements_join(w: World, a: Seq<Statement>, b: Seq<Statement>, f: Frame)
    ensures
        ({
            let first = semantics::run_statements(w, a, f);
            semantics::run_statements(w, a + b, f) == if first.1 == Ok::<bool, Seq<char>>(false) {
                semantics::run_statements(first.0, b, f)
            } else {
                first
            }
        }),
    decreases b.len(),
{
    let first = semantics::run_statements(w, a, f);
    if b.len() == 0 {
        assert(a + b =~= a);
        semantics::lemma_no_statements(first.0, f);
        assert(b =~= seq![]);
    } else {
        lemma_statements_join(w, a, b.drop_last(), f);
        assert((a + b).drop_last() =~= a + b.drop_last());
        assert((a + b).last() == b.last());
        semantics::lemma_statements_step(w, a + b, f);
        semantics::lemma_statements_step(first.0, b, f);
    }
}

/// A body of one statement does what the statement does; one of none does nothing.
pub proof fn lemma_one_statement(w: World, s: Statement, f: Frame)
    ensures
        semantics::run_statements(w, seq![s], f) == semantics::run_statement(w, s, f),
        semantics::run_statements(w, seq![], f) == (w, Ok::<bool, Seq<char>>(false)),
{
    semantics::lemma_no_statements(w, f);
    semantics::lemma_statements_step(w, seq![s], f);
    assert(seq![s].drop_last() =~= seq![]);
}

/// An assertion that holds changes nothing more than its evaluation did.
pub proof fn lemma_assertion_that_holds(w: World, claim: AssertStmt, f: Frame)
    requires
        semantics::eval(w.model, claim.expr, w.env, f.in_derive).1 is Ok,
        semantics::satisfied(semantics::eval(w.model, claim.expr, w.env, f.in_derive).1->Ok_0),
    ensures
        semantics::run_statement(w, Statement::Assert(claim), f) == (
            World { model: semantics::eval(w.model, claim.expr, w.env, f.in_derive).0, ..w },
            Ok::<bool, Seq<char>>(false),
        ),
{
    reveal_with_fuel(semantics::run_statement, 1);
}

/// An assertion that does not hold is reported under the rule, and the body goes
/// on.
pub proof fn lemma_assertion_that_fails(w: World, claim: AssertStmt, f: Frame)
    requires
        semantics::eval(w.model, claim.expr, w.env, f.in_derive).1 is Ok,
        !semantics::satisfied(semantics::eval(w.model, claim.expr, w.env, f.in_derive).1->Ok_0),
    ensures
        ({
            let m = semantics::eval(w.model, claim.expr, w.env, f.in_derive).0;
            let reported = semantics::plain_failure(m, f.rule, "assertion failed"@, None);
            let end = semantics::run_statement(w, Statement::Assert(claim), f);
            &&& end.0 == (World { model: reported.0, ..w })
            &&& reported.1 is Ok ==> end.1 == Ok::<bool, Seq<char>>(false)
            &&& reported.1 is Err ==> end.1 == Err::<bool, Seq<char>>(reported.1->Err_0)
        }),
{
    reveal_with_fuel(semantics::run_statement, 1);
}

/// An obligation that is met changes nothing more than its evaluation did.
pub proof fn lemma_obligation_that_is_met(w: World, s: ModalStmt, f: Frame)
    requires
        semantics::eval(w.model, s.expr, w.env, f.in_derive).1 is Ok,
        semantics::satisfied(semantics::eval(w.model, s.expr, w.env, f.in_derive).1->Ok_0),
    ensures
        semantics::run_statement(w, Statement::Modal(s), f) == (
            World { model: semantics::eval(w.model, s.expr, w.env, f.in_derive).0, ..w },
            Ok::<bool, Seq<char>>(false),
        ),
{
    reveal_with_fuel(semantics::run_statement, 1);
}

/// An obligation that is not met is reported under the rule: about the subject
/// that is stated, or else the entity bound last; with the area and the message
/// that are stated. All but a `may` end the body.
pub proof fn lemma_obligation_that_is_not_met(w: World, s: ModalStmt, f: Frame)
    requires
        semantics::eval(w.model, s.expr, w.env, f.in_derive).1 is Ok,
        !semantics::satisfied(semantics::eval(w.model, s.expr, w.env, f.in_derive).1->Ok_0),
        s.metadata is Some && s.metadata->0.subject is Some ==> semantics::eval_entity(
            semantics::eval(w.model, s.expr, w.env, f.in_derive).0,
            s.metadata->0.subject->0,
            w.env,
            f.in_derive,
        ).1 is Ok,
    ensures
        ({
            let m1 = semantics::eval(w.model, s.expr, w.env, f.in_derive).0;
            let named = semantics::eval_entity(
                m1,
                s.metadata->0.subject->0,
                w.env,
                f.in_derive,
            );
            let stated = s.metadata is Some && s.metadata->0.subject is Some;
            let m2 = if stated {
                named.0
            } else {
                m1
            };
            let subject = if stated {
                Some(named.1->Ok_0)
            } else {
                semantics::context_entity(w.env)
            };
            let area = if s.metadata is Some && s.metadata->0.area is Some {
                m2.resolve(s.metadata->0.area->0.text())
            } else {
                None
            };
            let message = if s.metadata is Some && s.metadata->0.message is Some {
                Some(s.metadata->0.message->0@)
            } else {
                None
            };
            let reported = semantics::rich_failure(m2, f.rule, subject, area, message, s.modal);
            let end = semantics::run_statement(w, Statement::Modal(s), f);
            &&& end.0 == (World { model: reported.0, ..w })
            &&& reported.1 is Ok ==> end.1 == Ok::<bool, Seq<char>>(s.modal != Modal::May)
            &&& reported.1 is Err ==> end.1 == Err::<bool, Seq<char>>(reported.1->Err_0)
        }),
{
    reveal_with_fuel(semantics::run_statement, 1);
}

/// Where a condition does not hold, an unmet `must` in the other body counts once;
/// and it does not count where the condition holds.
pub proof fn lemma_unmet_must_in_branch_counts(
    w: World,
    choice: IfStmt,
    f: Frame,
    must: ModalStmt,
)
    requires
        !f.in_derive,
        choice.else_body is Some,
        choice.else_body->0@ == seq![Statement::Modal(must)],
        must.modal is Must,
        must.metadata is None,
        semantics::eval(w.model, must.expr, w.env, false).1 is Ok,
        !semantics::satisfied(semantics::eval(w.model, must.expr, w.env, false).1->Ok_0),
        semantics::eval(w.model, choice.condition, w.env, false).1 is Ok,
        !semantics::satisfied(semantics::eval(w.model, choice.condition, w.env, false).1->Ok_0),
        semantics::run_statement(w, Statement::If(choice), f).1 is Ok,
        semantics::run_statement(w, Statement::If(choice), f).0.model.ids_fit(),
        graph::is_silent_on_new(
            w.model,
            semantics::run_statement(w, Statement::If(choice), f).0.model,
        ),
    ensures
        semantics::error_count(semantics::run_statement(w, Statement::If(choice), f).0.model)
            == semantics::error_count(w.model) + 1,
{
    laws::lemma_rules_evaluate_without_change(w.model, choice.condition, w.env);
    laws::lemma_rules_evaluate_without_change(w.model, must.expr, w.env);
    lemma_if_executes_branch(w, choice, f);
    lemma_one_statement(w, Statement::Modal(must), f);
    lemma_obligation_that_is_not_met(w, must, f);
    laws::lemma_unmet_obligation_counts(
        w.model,
        f.rule,
        semantics::context_entity(w.env),
        None,
        None,
        Modal::Must,
    );
}

// ---------------------------------------------------------------------------
// Loops
// ---------------------------------------------------------------------------

/// A `for` goes through the nodes that its collection stands for, in the graph
/// after the evaluation.
pub proof fn lemma_for_goes_through_nodes(w: World, each: ForStmt, f: Frame)
    requires
        semantics::eval(w.model, each.collection, w.env, f.in_derive).1 is Ok,
    ensures
        ({
            let value = semantics::eval(w.model, each.collection, w.env, f.in_derive);
            semantics::run_statement(w, Statement::For(each), f) == semantics::run_loop(
                World { model: value.0, ..w },
                each.var@,
                semantics::nodes_of(value.1->Ok_0),
                each.body@,
                f,
            )
        }),
{
    reveal_with_fuel(semantics::run_statement, 1);
}

/// A loop over nodes in two parts goes through the first part and then, unless
/// there was a fault, through the second.
pub proof fn lemma_loop_join(
    w: World,
    var: Seq<char>,
    a: Seq<EntityId>,
    b: Seq<EntityId>,
    body: Seq<Statement>,
    f: Frame,
)
    ensures
        ({
            let first = semantics::run_loop(w, var, a, body, f);
            semantics::run_loop(w, var, a + b, body, f) == if first.1 is Ok {
                semantics::run_loop(first.0, var, b, body, f)
            } else {
                first
            }
        }),
    decreases b.len(),
{
    let first = semantics::run_loop(w, var, a, body, f);
    if b.len() == 0 {
        assert(a + b =~= a);
        assert(b =~= seq![]);
        semantics::lemma_no_loop(first.0, var, body, f);
        lemma_loop_ends_plainly(w, var, a, body, f);
    } else {
        lemma_loop_join(w, var, a, b.drop_last(), body, f);
        assert((a + b).drop_last() =~= a + b.drop_last());
        assert((a + b).last() == b.last());
        semantics::lemma_loop_step(w, var, a + b, body, f);
        semantics::lemma_loop_step(first.0, var, b, body, f);
    }
}

/// A guard in the body of a loop does not end the loop, and the variables around
/// the loop are as they were when it ends.
pub proof fn lemma_loop_ends_plainly(
    w: World,
    var: Seq<char>,
    ids: Seq<EntityId>,
    body: Seq<Statement>,
    f: Frame,
)
    ensures
        semantics::run_loop(w, var, ids, body, f).1 is Ok ==> semantics::run_loop(
            w,
            var,
            ids,
            body,
            f,
        ).1 == Ok::<bool, Seq<char>>(false),
        semantics::run_loop(w, var, ids, body, f).0.env == w.env,
    decreases ids.len(),
{
    if ids.len() == 0 {
        assert(ids =~= seq![]);
        semantics::lemma_no_loop(w, var, body, f);
    } else {
        lemma_loop_ends_plainly(w, var, ids.drop_last(), body, f);
        semantics::lemma_loop_step(w, var, ids, body, f);
    }
}

/// The visit of a node in a loop.
pub open spec fn visit_of(f: Frame, var: Seq<char>, id: EntityId) -> VisitView {
    VisitView { rule: f.rule, binding: f.binding.push((var, id)) }
}

/// A loop over one node executes its body once, with the variable bound to the
/// node, and remembers that; where the rule has been there with the same loop
/// variables it does nothing.
pub proof fn lemma_loop_visits_once(
    w: World,
    var: Seq<char>,
    id: EntityId,
    body: Seq<Statement>,
    f: Frame,
)
    ensures
        ({
            let visit = visit_of(f, var, id);
            let end = semantics::run_loop(w, var, seq![id], body, f);
            let inner = Frame { binding: f.binding.push((var, id)), ..f };
            let start = World {
                visited: w.visited.push(visit),
                env: semantics::bound(w.env, var, EvalView::Entity(id)),
                ..w
            };
            let done = semantics::run_statements(start, body, inner);
            &&& w.visited.contains(visit) ==> end == (w, Ok::<bool, Seq<char>>(false))
            &&& !w.visited.contains(visit) ==> {
                &&& end.0.model == done.0.model
                &&& end.0.visited == done.0.visited
                &&& end.0.env == w.env
                &&& done.1 is Ok ==> end.1 == Ok::<bool, Seq<char>>(false)
                &&& done.1 is Err ==> end.1 == done.1
            }
        }),
{
    semantics::lemma_loop_step(w, var, seq![id], body, f);
    assert(seq![id].drop_last() =~= seq![]);
    semantics::lemma_no_loop(w, var, body, f);
}

/// A loop over nothing does nothing; and a loop whose nodes have all been visited
/// with the same loop variables does nothing.
pub proof fn lemma_visited_loop_does_nothing(
    w: World,
    var: Seq<char>,
    ids: Seq<EntityId>,
    body: Seq<Statement>,
    f: Frame,
)
    requires
        forall|i: int|
            0 <= i < ids.len() ==> w.visited.contains(visit_of(f, var, #[trigger] ids[i])),
    ensures
        semantics::run_loop(w, var, ids, body, f) == (w, Ok::<bool, Seq<char>>(false)),
    decreases ids.len(),
{
    if ids.len() == 0 {
        assert(ids =~= seq![]);
        semantics::lemma_no_loop(w, var, body, f);
    } else {
        let rest = ids.drop_last();
        assert forall|i: int| 0 <= i < rest.len() implies w.visited.contains(
            visit_of(f, var, #[trigger] rest[i]),
        ) by {
            assert(rest[i] == ids[i]);
        }
        lemma_visited_loop_does_nothing(w, var, rest, body, f);
        semantics::lemma_loop_step(w, var, ids, body, f);
        assert(w.visited.contains(visit_of(f, var, ids[ids.len() - 1])));
    }
}

// ---------------------------------------------------------------------------
// More on values
// ---------------------------------------------------------------------------

/// The entity that a finding is about where no subject is stated is the one bound
/// last; there is none exactly where no variable is bound to an entity.
pub proof fn lemma_context_is_last_entity(env: EnvView)
    ensures
        semantics::context_entity(env) is None <==> forall|i: int|
            0 <= i < env.len() ==> !((#[trigger] env[i]).1 is Entity),
        forall|i: int|
            #![trigger env[i]]
            0 <= i < env.len() && env[i].1 is Entity && (forall|j: int|
                i < j < env.len() ==> !((#[trigger] env[j]).1 is Entity))
                ==> semantics::context_entity(env) is Some && env[i].1 == EvalView::Entity(
                semantics::context_entity(env)->0,
            ),
    decreases env.len(),
{
    if env.len() > 0 {
        let rest = env.drop_last();
        lemma_context_is_last_entity(rest);
        assert(env[env.len() - 1] == env.last());
        assert(forall|i: int| 0 <= i < rest.len() ==> #[trigger] rest[i] == env[i]);
        assert forall|i: int|
            #![trigger env[i]]
            0 <= i < env.len() && env[i].1 is Entity && (forall|j: int|
                i < j < env.len() ==> !((#[trigger] env[j]).1 is Entity)) implies semantics::context_entity(
            env,
        ) is Some && env[i].1 == EvalView::Entity(semantics::context_entity(env)->0) by {
            if i < rest.len() {
                assert(!(env[env.len() - 1].1 is Entity));
                assert(rest[i].1 is Entity);
                assert forall|j: int| i < j < rest.len() implies !((
                #[trigger] rest[j]).1 is Entity) by {
                    assert(!(env[j].1 is Entity));
                }
            }
        }
        if semantics::context_entity(env) is None {
            assert forall|i: int| 0 <= i < env.len() implies !((#[trigger] env[i]).1 is Entity) by {
                if i < rest.len() {
                    assert(!(rest[i].1 is Entity));
                }
            }
        } else if !(env.last().1 is Entity) {
            let i = choose|i: int| 0 <= i < rest.len() && (#[trigger] rest[i]).1 is Entity;
            assert(env[i].1 is Entity);
        }
    }
}

/// A choice or check by a value that is nothing settles without a fault and does
/// not hold; one by entities is a fault.
pub proof fn lemma_choice_without_text(
    m: ModelView,
    choice: Box<MatchExpr>,
    check: Box<AsExpr>,
    env: EnvView,
    in_derive: bool,
)
    ensures
        ({
            let value = semantics::eval(m, choice.value, env, in_derive);
            let end = semantics::eval(m, Expr::Match(choice), env, in_derive);
            &&& !(choice.value is Query) && value.1 is Err ==> end.1 == value.1
            &&& !(choice.value is Query) && value.1 is Ok && value.1->Ok_0 is Empty ==> end.0
                == value.0 && end.1 is Ok && !semantics::satisfied(end.1->Ok_0)
            &&& !(choice.value is Query) && value.1 is Ok && (value.1->Ok_0 is Entity
                || value.1->Ok_0 is EntitySet) ==> end.0 == value.0 && end.1 is Err
        }),
        ({
            let value = semantics::eval(m, check.inner, env, in_derive);
            let end = semantics::eval(m, Expr::As(check), env, in_derive);
            &&& !(check.inner is Query) && value.1 is Err ==> end.1 == value.1
            &&& !(check.inner is Query) && value.1 is Ok && value.1->Ok_0 is Empty ==> end == (
                value.0,
                Ok::<EvalView, Seq<char>>(EvalView::Empty),
            )
            &&& !(check.inner is Query) && value.1 is Ok && (value.1->Ok_0 is Entity
                || value.1->Ok_0 is EntitySet) ==> end.0 == value.0 && end.1 is Err
        }),
{
    reveal_strlit("false");
}

/// A check of what a path from a variable leads to goes by its only text; it gives
/// nothing where there is none, and is a fault where there are several.
pub proof fn lemma_check_by_path(m: ModelView, check: Box<AsExpr>, env: EnvView, in_derive: bool)
    requires
        m.ids_fit(),
        check.inner is Query,
        goes_from_variable(check.inner->Query_0.path.steps@, env),
    ensures
        ({
            let found = texts_from_variable(m, check.inner->Query_0.path.steps@, env);
            let kind = m.resolve(check.target_type.text());
            let end = semantics::eval(m, Expr::As(check), env, in_derive);
            &&& end.0 == m
            &&& found.len() == 0 ==> end.1 == Ok::<EvalView, Seq<char>>(EvalView::Empty)
            &&& found.len() > 1 ==> end.1 is Err
            &&& found.len() == 1 && kind is None ==> end.1 is Err
            &&& found.len() == 1 && kind is Some ==> end.1 == Ok::<EvalView, Seq<char>>(
                if is_variant(m, kind->0, text::unquoted(found[0])) {
                    EvalView::Literal(text::unquoted(found[0]))
                } else {
                    EvalView::Empty
                },
            )
        }),
{
    let found = texts_from_variable(m, check.inner->Query_0.path.steps@, env);
    if found.len() == 1 {
        if let Some(kind) = m.resolve(check.target_type.text()) {
            lemma_has_variant(m, kind, text::unquoted(found[0]));
        }
    }
}

/// Where an entity is asked for, a text, a truth value, a negation, a choice or a
/// check is a fault, and the graph stays as it is; in a derive a new node is made
/// where one is asked for.
pub proof fn lemma_entity_of_others(m: ModelView, e: Expr, env: EnvView, in_derive: bool)
    ensures
        e is String || e is Bool || e is Empty || e is Match || e is As ==> semantics::eval_entity(
            m,
            e,
            env,
            in_derive,
        ).0 == m && semantics::eval_entity(m, e, env, in_derive).1 is Err,
        e is Blank && in_derive ==> semantics::eval_entity(m, e, env, in_derive) == (
            m.with_blank(),
            Ok::<EntityId, Seq<char>>(m.next_id()),
        ),
{
}

/// A variable that is bound stands last, once, and the other variables keep their
/// values and their order.
pub proof fn lemma_binding_forgets(a: EnvView, b: EnvView, name: Seq<char>, value: EvalView)
    ensures
        ({
            let env = semantics::bound(a, name, value);
            &&& env.last() == (name, value)
            &&& forall|i: int| 0 <= i < env.len() - 1 ==> (#[trigger] env[i]).0 != name
        }),
        semantics::bound(a + b, name, value) == semantics::bound(a, name, value).drop_last()
            + semantics::bound(b, name, value),
        forall|other: Seq<char>, v: EvalView|
            other != name ==> semantics::bound(#[trigger] seq![(other, v)], name, value) == seq![
                (other, v),
                (name, value),
            ],
    decreases b.len(),
{
    lemma_without(a, name);
    assert(semantics::bound(a, name, value).drop_last() =~= semantics::without(a, name));
    assert forall|other: Seq<char>, v: EvalView| other != name implies semantics::bound(
        #[trigger] seq![(other, v)],
        name,
        value,
    ) == seq![(other, v), (name, value)] by {
        let one = seq![(other, v)];
        assert(one.drop_last() =~= seq![]);
        assert(semantics::without(one.drop_last(), name) =~= seq![]);
        assert(semantics::without(one, name) =~= one);
        assert(semantics::bound(one, name, value) =~= seq![(other, v), (name, value)]);
    }
    if b.len() == 0 {
        assert(a + b =~= a);
        assert(semantics::without(b, name) =~= seq![]);
        assert(semantics::bound(a, name, value) =~= semantics::without(a, name)
            + semantics::bound(b, name, value));
    } else {
        lemma_binding_forgets(a, b.drop_last(), name, value);
        let rest = b.drop_last();
        assert((a + b).drop_last() =~= a + rest);
        assert((a + b).last() == b.last());
        assert(semantics::bound(a + rest, name, value).drop_last() =~= semantics::without(
            a + rest,
            name,
        ));
        assert((semantics::without(a, name) + semantics::bound(rest, name, value)).drop_last()
            =~= semantics::without(a, name) + semantics::without(rest, name));
        assert(semantics::without(a + b, name) =~= semantics::without(a, name)
            + semantics::without(b, name));
        assert(semantics::bound(a + b, name, value) =~= semantics::without(a, name)
            + semantics::bound(b, name, value));
    }
}

proof fn lemma_without(env: EnvView, name: Seq<char>)
    ensures
        forall|i: int|
            0 <= i < semantics::without(env, name).len() ==> (#[trigger] semantics::without(
                env,
                name,
            )[i]).0 != name,
    decreases env.len(),
{
    if env.len() > 0 {
        let rest = semantics::without(env.drop_last(), name);
        lemma_without(env.drop_last(), name);
        let all = semantics::without(env, name);
        assert forall|i: int| 0 <= i < all.len() implies (#[trigger] all[i]).0 != name by {
            if i < rest.len() {
                assert(all[i] == rest[i]);
            }
        }
    }
}

/// A choice or check by a path must begin with a variable that is bound; a choice
/// must go on from there, and a check that does not, or that begins with no nodes,
/// finds nothing.
pub proof fn lemma_path_needs_variable(
    m: ModelView,
    choice: Box<MatchExpr>,
    check: Box<AsExpr>,
    env: EnvView,
    in_derive: bool,
)
    ensures
        choice.value is Query ==> ({
            let steps = choice.value->Query_0.path.steps@;
            let end = semantics::eval(m, Expr::Match(choice), env, in_derive);
            &&& end.0 == m || goes_from_variable(steps, env)
            &&& !goes_from_variable(steps, env) ==> end.1 is Err
        }),
        check.inner is Query ==> ({
            let steps = check.inner->Query_0.path.steps@;
            let end = semantics::eval(m, Expr::As(check), env, in_derive);
            let begins = steps.len() > 0 && steps[0].node_test is Some
                && steps[0].node_test->0.namespace is None && semantics::lookup(
                env,
                steps[0].node_test->0.name@,
            ) is Some;
            &&& end.0 == m
            &&& !begins ==> end.1 is Err
            &&& begins && !goes_from_variable(steps, env) ==> end.1 == Ok::<EvalView, Seq<char>>(
                EvalView::Empty,
            )
        }),
{
}

/// A blank node is made by an `add` alone: it has no value of its own, and none is
/// made in a rule.
pub proof fn lemma_blank_has_no_value(m: ModelView, span: Span, env: EnvView, in_derive: bool)
    ensures
        semantics::eval(m, Expr::Blank(span), env, in_derive).0 == m,
        semantics::eval(m, Expr::Blank(span), env, in_derive).1 is Err,
        semantics::eval_entity(m, Expr::Blank(span), env, false).0 == m,
        semantics::eval_entity(m, Expr::Blank(span), env, false).1 is Err,
{
}

/// A fault tells what it is about: the variable that is not bound, the name that is
/// not resolved, or how many entities there are where one is wanted.
pub proof fn lemma_faults_tell(
    m: ModelView,
    e: Expr,
    env: EnvView,
    in_derive: bool,
)
    ensures
        e is Var && semantics::lookup(env, e->Var_0@) is None ==> text::has_suffix(
            semantics::eval(m, e, env, in_derive).1->Err_0,
            e->Var_0@,
        ) && text::has_suffix(semantics::eval_entity(m, e, env, in_derive).1->Err_0, e->Var_0@),
        e is QName && m.resolve(e->QName_0.text()) is None ==> text::has_suffix(
            semantics::eval(m, e, env, in_derive).1->Err_0,
            e->QName_0.text(),
        ) && text::has_suffix(
            semantics::eval_entity(m, e, env, in_derive).1->Err_0,
            e->QName_0.text(),
        ),
        e is Var && semantics::lookup(env, e->Var_0@) is Some && semantics::lookup(
            env,
            e->Var_0@,
        )->0 is EntitySet && semantics::eval_entity(m, e, env, in_derive).1 is Err ==> {
            let fault = semantics::eval_entity(m, e, env, in_derive).1->Err_0;
            &&& text::has_part(fault, e->Var_0@)
            &&& text::has_part(
                fault,
                text::decimal(semantics::nodes_of(semantics::lookup(env, e->Var_0@)->0).len()),
            )
        },
        e is Query && paths::query_result(m, e->Query_0.path.steps@).len() > 1
            ==> text::has_part(
            semantics::eval_entity(m, e, env, in_derive).1->Err_0,
            text::decimal(paths::query_result(m, e->Query_0.path.steps@).len()),
        ),
{
    if e is Var {
        let name = e->Var_0@;
        text::lemma_parts(name, name, "undefined variable: "@, seq![]);
        if let Some(EvalView::EntitySet(ids)) = semantics::lookup(env, name) {
            let count = text::decimal(ids.len());
            let head = "variable '"@ + name + "' is a set with "@;
            let tail = " elements, expected single entity"@;
            lemma_middle("variable '"@, name, "' is a set with "@ + count + tail);
            lemma_middle(head, count, tail);
            assert("variable '"@ + name + ("' is a set with "@ + count + tail) =~= head + count
                + tail);
        }
    }
    if e is QName {
        let name = e->QName_0.text();
        text::lemma_parts(name, name, "unresolved name: "@, seq![]);
    }
    if e is Query {
        let count = text::decimal(paths::query_result(m, e->Query_0.path.steps@).len());
        lemma_middle("query returned "@, count, " results, expected single entity"@);
    }
}

proof fn lemma_middle(a: Seq<char>, b: Seq<char>, c: Seq<char>)
    ensures
        text::has_part(a + b + c, b),
{
    text::lemma_halves(a + b, c);
    text::lemma_halves(a, b);
    text::lemma_part_of_part(a + b + c, a + b, b);
}

/// A choice that has no arm for its text, and a check against a type that is not
/// there, tell the text and the type; a statement that cannot be made tells why.
pub proof fn lemma_refusals_tell(
    m: ModelView,
    choice: Box<MatchExpr>,
    check: Box<AsExpr>,
    env: EnvView,
    in_derive: bool,
    s: Seq<char>,
    subject: EntityId,
    predicate: Seq<char>,
)
    ensures
        !(choice.value is Query) && semantics::eval(m, choice.value, env, in_derive).1 == Ok::<
            EvalView,
            Seq<char>,
        >(EvalView::Literal(s)) && (forall|k: int|
            0 <= k < choice.arms@.len() ==> !is_for(
                #[trigger] choice.arms@[k],
                text::unquoted(s),
            )) ==> text::has_suffix(
            semantics::eval(m, Expr::Match(choice), env, in_derive).1->Err_0,
            text::unquoted(s),
        ),
        m.resolve(check.target_type.text()) is None ==> semantics::checked(
            m,
            check.target_type.text(),
            s,
        ) is Err && text::has_part(
            semantics::checked(m, check.target_type.text(), s)->Err_0,
            check.target_type.text(),
        ),
        ({
            let made = semantics::attached(m, subject, predicate, EvalView::Literal(s));
            let refused = m.apply(subject, predicate, ValueView::Literal(s));
            refused.1 is Err ==> made.1 is Err && text::has_suffix(
                made.1->Err_0,
                refused.1->Err_0,
            )
        }),
{
    let t = text::unquoted(s);
    text::lemma_parts(t, t, "no matching arm for value: "@, seq![]);
    if !(choice.value is Query) && semantics::eval(m, choice.value, env, in_derive).1 == Ok::<
        EvalView,
        Seq<char>,
    >(EvalView::Literal(s)) && (forall|k: int|
        0 <= k < choice.arms@.len() ==> !is_for(#[trigger] choice.arms@[k], t)) {
        lemma_matching_arm(choice.arms@, t, 0);
    }
    let kind = check.target_type.text();
    lemma_middle("type '"@, kind, "' not found for as() conversion"@);
    let refused = m.apply(subject, predicate, ValueView::Literal(s));
    if refused.1 is Err {
        let why = refused.1->Err_0;
        text::lemma_parts(why, why, "failed to add statement: "@, seq![]);
    }
}

} // verus!
