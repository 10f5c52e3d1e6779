//! Rule execution in two phases: the derives build the graph until nothing more
//! follows, then the rules of a policy look at it, in order, and report findings.

use vstd::prelude::*;

use crate::kernel::ast::{
    AddExpr, AddStmt, Derive, Expr, MatchArm, MatchPattern, Modal, ModalStmt, QualifiedName, QueryPath,
    Rule, Statement,
};
use crate::kernel::forms::show_expr;
use crate::kernel::laws;
use crate::kernel::paths;
use crate::kernel::query::QueryEngine;
use crate::kernel::semantics::{
    self, BindingView, EvalView, ExecutionView, Frame, PolicyOutcome, PolicyRuleView, Progress, State,
    TextFound, TextUse, VisitView, World,
};
use crate::kernel::values::{Env, EvalResult};
use crate::model::laws as graph;
use crate::model::view::{self, ModelView};
use crate::model::{entity_id, EntityId, Model, ModelError, Term};
use crate::names::NameMap;
use crate::text;

verus! {

/// Why a rule or derive could not be executed.
#[derive(Debug)]
pub struct RuleError {
    pub message: String,
}

/// The view of an outcome.
pub open spec fn rule_outcome<T>(r: Result<T, RuleError>) -> Result<T, Seq<char>> {
    match r {
        Ok(t) => Ok(t),
        Err(e) => Err(e.message@),
    }
}

/// The view of the outcome of an evaluation.
pub open spec fn value_outcome(r: Result<EvalResult, RuleError>) -> Result<EvalView, Seq<char>> {
    match r {
        Ok(value) => Ok(value@),
        Err(e) => Err(e.message@),
    }
}

/// An error with a message.
fn fault(message: &str) -> (r: RuleError)
    ensures
        r.message@ == message@,
{
    RuleError { message: message.to_owned() }
}

/// The outcome of a change of a model, with a prefix to its message.
fn prefixed(r: Result<(), ModelError>, prefix: &str) -> (out: Result<(), RuleError>)
    ensures
        match r {
            Ok(_) => out is Ok,
            Err(e) => rule_outcome(out) == Err::<(), Seq<char>>(prefix@ + e.message@),
        },
{
    match r {
        Ok(_) => Ok(()),
        Err(e) => Err(RuleError { message: text::cat2(prefix, e.message.as_str()) }),
    }
}

// ---------------------------------------------------------------------------
// Engine
// ---------------------------------------------------------------------------

/// The loop variables around a statement, with their entities.
type ReferenceBinding = Vec<(String, EntityId)>;

/// The view of loop variables.
pub open spec fn pair_views(pairs: Seq<(String, EntityId)>) -> BindingView {
    Seq::new(pairs.len(), |i: int| (pairs[i].0@, pairs[i].1))
}

/// An execution of a loop body.
#[derive(Debug)]
struct Visit {
    rule: String,
    binding: ReferenceBinding,
}

impl View for Visit {
    type V = VisitView;

    closed spec fn view(&self) -> VisitView {
        VisitView { rule: self.rule@, binding: pair_views(self.binding@) }
    }
}

/// The engine that executes rules and derives.
#[derive(Debug)]
pub struct RuleEngine {
    /// The loop bodies that were executed already.
    processed: Vec<Visit>,
}

impl View for RuleEngine {
    type V = Seq<VisitView>;

    closed spec fn view(&self) -> Seq<VisitView> {
        Seq::new(self.processed@.len(), |i: int| self.processed@[i]@)
    }
}

impl Default for RuleEngine {
    fn default() -> (r: Self)
        ensures
            r@ == Seq::<VisitView>::empty(),
    {
        RuleEngine::new()
    }
}

/// A text, a value in its stead, or a fault.
enum Found {
    Text(String),
    Settled(EvalResult),
    Fault(String),
}

impl View for Found {
    type V = TextFound;

    closed spec fn view(&self) -> TextFound {
        match self {
            Found::Text(s) => TextFound::Text(s@),
            Found::Settled(v) => TextFound::Settled(v@),
            Found::Fault(e) => TextFound::Fault(e@),
        }
    }
}

/// The value of a choice or check whose text is missing.
fn missing_text(purpose: TextUse) -> (r: EvalResult)
    ensures
        r@ == semantics::missing_text(purpose),
{
    match purpose {
        TextUse::Match => EvalResult::Literal("false".to_owned()),
        TextUse::As => EvalResult::Empty,
    }
}

/// The error on an expression, as messages show it, that denotes no entity.
pub fn not_an_entity(form: &str) -> (r: RuleError)
    ensures
        r.message@ == semantics::no_entity(form@),
{
    RuleError { message: text::cat2("expression cannot be converted to entity: ", form) }
}

impl RuleEngine {
    /// An engine that has executed nothing.
    pub fn new() -> (r: Self)
        ensures
            r@ == Seq::<VisitView>::empty(),
    {
        let r = RuleEngine { processed: Vec::new() };
        assert(r@ =~= Seq::<VisitView>::empty());
        r
    }

    /// Whether a value meets an obligation.
    pub fn is_satisfied(&self, result: &EvalResult) -> (r: bool)
        ensures
            r == semantics::satisfied(result@),
    {
        match result {
            EvalResult::EntitySet(ids) => ids.len() > 0,
            EvalResult::Entity(_) => true,
            EvalResult::Literal(s) => !text::is_empty(s.as_str()) && !text::same_text(
                s.as_str(),
                "false",
            ),
            EvalResult::Empty => false,
        }
    }

    // -----------------------------------------------------------------------
    // Expressions
    // -----------------------------------------------------------------------

    /// The nodes that a query starts from, where its first step names a variable.
    fn start_nodes(&self, path: &QueryPath, env: &Env) -> (r: Vec<EntityId>)
        ensures
            r@ == semantics::start_nodes(path.steps@, env@),
    {
        if path.steps.len() == 0 {
            return Vec::new();
        }
        match &path.steps[0].node_test {
            Some(name) => match &name.namespace {
                None => match env.get(name.name.as_str()) {
                    Some(value) => value.nodes(),
                    None => Vec::new(),
                },
                Some(_) => Vec::new(),
            },
            None => Vec::new(),
        }
    }

    /// The result of a query in an environment.
    fn eval_query(&self, model: &Model, path: &QueryPath, env: &Env) -> (r: Result<
        Vec<EntityId>,
        RuleError,
    >)
        ensures
            r is Ok,
            r->Ok_0@ == semantics::query_value(model@, path.steps@, env@),
    {
        let engine = QueryEngine::new();
        let starts = self.start_nodes(path, env);
        if starts.len() == 0 {
            return engine.execute(model, path);
        }
        let ghost test = |id: EntityId|
            paths::conditions_hold(model@, id, path.steps@[0].predicates@);
        let mut kept: Vec<EntityId> = Vec::new();
        for i in 0..starts.len()
            invariant
                path.steps.len() > 0,
                test == (|id: EntityId|
                    paths::conditions_hold(model@, id, path.steps@[0].predicates@)),
                kept@ == paths::passing(starts@.take(i as int), test),
        {
            assert(starts@.take(i + 1).drop_last() =~= starts@.take(i as int));
            if engine.check_predicates(model, starts[i], &path.steps[0].predicates) {
                kept.push(starts[i]);
            }
        }
        assert(starts@.take(starts@.len() as int) =~= starts@);
        engine.execute_from(model, &kept, path, 1)
    }

    /// The text that a query in a choice or check leads to.
    fn query_text(&self, model: &Model, path: &QueryPath, env: &Env, purpose: TextUse) -> (r: Found)
        ensures
            r@ == semantics::query_text(model@, path.steps@, env@, purpose),
    {
        if path.steps.len() == 0 {
            return Found::Fault(
                match purpose {
                    TextUse::Match => "match query is empty".to_owned(),
                    TextUse::As => "as() query is empty".to_owned(),
                },
            );
        }
        let name = match &path.steps[0].node_test {
            Some(name) => name,
            None => {
                return Found::Fault(
                    match purpose {
                        TextUse::Match => "match query must start with variable".to_owned(),
                        TextUse::As => "as() query must start with variable".to_owned(),
                    },
                );
            },
        };
        if name.namespace.is_some() {
            return Found::Fault(
                match purpose {
                    TextUse::Match => "match on qualified name not supported".to_owned(),
                    TextUse::As => "as() on qualified name not supported".to_owned(),
                },
            );
        }
        let starts = match env.get(name.name.as_str()) {
            Some(value) => value.nodes(),
            None => {
                return Found::Fault(
                    match purpose {
                        TextUse::Match => text::cat2(
                            "undefined variable in match: ",
                            name.name.as_str(),
                        ),
                        TextUse::As => text::cat2("undefined variable in as(): ", name.name.as_str()),
                    },
                );
            },
        };
        if starts.len() == 0 || path.steps.len() <= 1 {
            return match purpose {
                TextUse::Match => Found::Fault(
                    "match on variable without path not supported".to_owned(),
                ),
                TextUse::As => Found::Settled(EvalResult::Empty),
            };
        }
        let literals = QueryEngine::new().extract_literals(model, &starts, path, 1);
        self.single_text(literals, purpose)
    }

    /// The only one of some texts.
    fn single_text(&self, literals: Vec<String>, purpose: TextUse) -> (r: Found)
        ensures
            r@ == semantics::single_text(text::views(literals@), purpose),
    {
        if literals.len() == 1 {
            Found::Text(literals[0].clone())
        } else if literals.len() == 0 {
            Found::Settled(missing_text(purpose))
        } else {
            let count = text::decimal_text(literals.len() as u64);
            Found::Fault(
                match purpose {
                    TextUse::Match => text::cat2(
                        "match requires single value, got ",
                        count.as_str(),
                    ),
                    TextUse::As => text::cat2("as() requires single value, got ", count.as_str()),
                },
            )
        }
    }

    /// The text of a value in a choice or check.
    fn value_text(&self, value: EvalResult, purpose: TextUse) -> (r: Found)
        ensures
            r@ == semantics::value_text(value@, purpose),
    {
        match value {
            EvalResult::Literal(s) => Found::Text(s),
            EvalResult::Empty => Found::Settled(missing_text(purpose)),
            _ => Found::Fault(
                match purpose {
                    TextUse::Match => "match value must be a literal".to_owned(),
                    TextUse::As => "as() requires literal value".to_owned(),
                },
            ),
        }
    }

    /// Whether some pattern of an arm matches a text.
    fn arm_matches(&self, arm: &MatchArm, value: &str) -> (r: bool)
        ensures
            r == semantics::arm_matches(*arm, value@),
    {
        for i in 0..arm.patterns.len()
            invariant
                forall|j: int|
                    0 <= j < i ==> !semantics::pattern_matches(
                        #[trigger] arm.patterns@[j],
                        value@,
                    ),
        {
            let matches = match &arm.patterns[i] {
                MatchPattern::Else => true,
                MatchPattern::Variant(name) => text::same_text(name.as_str(), value),
            };
            assert(matches == semantics::pattern_matches(arm.patterns@[i as int], value@));
            if matches {
                return true;
            }
        }
        false
    }

    /// The position of the first arm that matches.
    fn matching_arm(&self, arms: &Vec<MatchArm>, value: &str) -> (r: Option<usize>)
        ensures
            match r {
                Some(i) => i < arms.len() && semantics::matching_arm(arms@, value@, 0) == Some(
                    i as int,
                ),
                None => semantics::matching_arm(arms@, value@, 0) is None,
            },
    {
        for i in 0..arms.len()
            invariant
                semantics::matching_arm(arms@, value@, 0) == semantics::matching_arm(
                    arms@,
                    value@,
                    i as int,
                ),
        {
            if self.arm_matches(&arms[i], value) {
                return Some(i);
            }
        }
        None
    }

    /// The value of a check of a text against the variants of a type.
    fn check_variant(&self, model: &Model, kind: &QualifiedName, value: String) -> (r: Result<
        EvalResult,
        RuleError,
    >)
        ensures
            value_outcome(r) == semantics::checked(model@, kind.text(), value@),
    {
        let kind_name = kind.to_text();
        let kind_id = match model.resolve(kind_name.as_str()) {
            Some(id) => id,
            None => {
                return Err(
                    RuleError {
                        message: text::cat3(
                            "type '",
                            kind_name.as_str(),
                            "' not found for as() conversion",
                        ),
                    },
                );
            },
        };
        if let Some(sub_type_of) = model.resolve("wa2:subTypeOf") {
            let count: usize = model.entity_count();
            for i in 0..count
                invariant
                    count == model@.names.len(),
                    model@.resolve("wa2:subTypeOf"@) == Some(sub_type_of),
                    model@.resolve(kind.text()) == Some(kind_id),
                    forall|j: int|
                        0 <= j < i ==> !#[trigger] semantics::is_variant_at(
                            model@,
                            sub_type_of,
                            kind_id,
                            value@,
                            j,
                        ),
            {
                let entity = entity_id(i);
                if model.has(entity, sub_type_of, &Term::Entity(kind_id)) {
                    let local = text::local_text(model.qualified_name(entity).as_str());
                    if local == value {
                        assert(semantics::is_variant_at(
                            model@,
                            sub_type_of,
                            kind_id,
                            value@,
                            i as int,
                        ));
                        assert(semantics::is_variant_name(model@, sub_type_of, kind_id, value@));
                        return Ok(EvalResult::Literal(value));
                    }
                }
            }
        }
        Ok(EvalResult::Empty)
    }

    /// Makes a statement on a subject, with the subject as the value.
    fn attach(&self, model: &mut Model, subject: EntityId, predicate: &QualifiedName, object: EvalResult) -> (r:
        Result<EntityId, RuleError>)
        ensures
            (final(model)@, rule_outcome(r)) == semantics::attached(
                old(model)@,
                subject,
                predicate.text(),
                object@,
            ),
    {
        let name = predicate.to_text();
        match object {
            EvalResult::Entity(id) => {
                prefixed(
                    model.apply_entity(subject, name.as_str(), id),
                    "failed to add statement: ",
                )?;
            },
            EvalResult::Literal(s) => {
                prefixed(
                    model.apply_literal(subject, name.as_str(), s.as_str()),
                    "failed to add statement: ",
                )?;
            },
            EvalResult::EntitySet(_) => {
                return Err(fault("cannot use set as object"));
            },
            EvalResult::Empty => {
                return Err(fault("cannot use empty as object"));
            },
        }
        Ok(subject)
    }

    /// Evaluates an expression, in a derive or in a rule.
    pub fn eval_expr(&self, model: &mut Model, expr: &Expr, env: &Env, is_derive: bool) -> (r: Result<
        EvalResult,
        RuleError,
    >)
        ensures
            (final(model)@, value_outcome(r)) == semantics::eval(
                old(model)@,
                *expr,
                env@,
                is_derive,
            ),
        decreases *expr,
    {
        match expr {
            Expr::Var(name, _) => match env.get(name.as_str()) {
                Some(value) => Ok(value.clone()),
                None => Err(
                    RuleError { message: text::cat2("undefined variable: ", name.as_str()) },
                ),
            },
            Expr::Blank(_) => if is_derive {
                Err(fault("blank node in eval context - should be handled in add"))
            } else {
                Err(fault("blank nodes not allowed in rules"))
            },
            Expr::Query(query) => {
                let found = self.eval_query(model, &query.path, env)?;
                Ok(EvalResult::EntitySet(found))
            },
            Expr::Add(add) => {
                let subject = self.eval_add(model, add, env, is_derive)?;
                Ok(EvalResult::Entity(subject))
            },
            Expr::QName(name) => {
                let full = name.to_text();
                match model.resolve(full.as_str()) {
                    Some(id) => Ok(EvalResult::Entity(id)),
                    None => Err(
                        RuleError { message: text::cat2("unresolved name: ", full.as_str()) },
                    ),
                }
            },
            Expr::String(s, _) => Ok(EvalResult::Literal(s.clone())),
            Expr::Bool(b, _) => Ok(EvalResult::Literal(text::truth_text(*b))),
            Expr::Empty(inner, _) => {
                let value = self.eval_expr(model, inner, env, is_derive)?;
                if self.is_satisfied(&value) {
                    Ok(EvalResult::Empty)
                } else {
                    Ok(EvalResult::Literal("true".to_owned()))
                }
            },
            Expr::Match(choice) => {
                let found = if let Expr::Query(query) = &choice.value {
                    self.query_text(model, &query.path, env, TextUse::Match)
                } else {
                    let value = self.eval_expr(model, &choice.value, env, is_derive)?;
                    self.value_text(value, TextUse::Match)
                };
                match found {
                    Found::Fault(message) => Err(RuleError { message }),
                    Found::Settled(value) => Ok(value),
                    Found::Text(s) => {
                        let bare = text::strip_quotes(s.as_str());
                        match self.matching_arm(&choice.arms, bare.as_str()) {
                            Some(i) => self.eval_expr(model, &choice.arms[i].result, env, is_derive),
                            None => Err(
                                RuleError {
                                    message: text::cat2(
                                        "no matching arm for value: ",
                                        bare.as_str(),
                                    ),
                                },
                            ),
                        }
                    },
                }
            },
            Expr::As(check) => {
                let found = if let Expr::Query(query) = &check.inner {
                    self.query_text(model, &query.path, env, TextUse::As)
                } else {
                    let value = self.eval_expr(model, &check.inner, env, is_derive)?;
                    self.value_text(value, TextUse::As)
                };
                match found {
                    Found::Fault(message) => Err(RuleError { message }),
                    Found::Settled(value) => Ok(value),
                    Found::Text(s) => {
                        let bare = text::strip_quotes(s.as_str());
                        self.check_variant(model, &check.target_type, bare)
                    },
                }
            },
        }
    }

    /// Evaluates an `add`: makes the statement, with the subject as the value.
    fn eval_add(&self, model: &mut Model, add: &AddExpr, env: &Env, is_derive: bool) -> (r: Result<
        EntityId,
        RuleError,
    >)
        ensures
            (final(model)@, rule_outcome(r)) == semantics::eval_add(
                old(model)@,
                *add,
                env@,
                is_derive,
            ),
        decreases *add,
    {
        if !is_derive {
            return Err(fault("add expressions not allowed in rules"));
        }
        let subject = self.eval_expr_to_entity(model, &add.subject, env, is_derive)?;
        let object = self.eval_expr(model, &add.object, env, is_derive)?;
        self.attach(model, subject, &add.predicate, object)
    }

    /// The entity that an expression denotes, in a derive or in a rule.
    pub fn eval_expr_to_entity(&self, model: &mut Model, expr: &Expr, env: &Env, is_derive: bool) -> (r:
        Result<EntityId, RuleError>)
        ensures
            (final(model)@, rule_outcome(r)) == semantics::eval_entity(
                old(model)@,
                *expr,
                env@,
                is_derive,
            ),
        decreases *expr,
    {
        match expr {
            Expr::Var(name, _) => match env.get(name.as_str()) {
                Some(EvalResult::Entity(id)) => Ok(*id),
                Some(EvalResult::EntitySet(ids)) => if ids.len() == 1 {
                    Ok(ids[0])
                } else {
                    let count = text::decimal_text(ids.len() as u64);
                    Err(
                        RuleError {
                            message: text::cat5(
                                "variable '",
                                name.as_str(),
                                "' is a set with ",
                                count.as_str(),
                                " elements, expected single entity",
                            ),
                        },
                    )
                },
                Some(_) => Err(
                    RuleError {
                        message: text::cat3("variable '", name.as_str(), "' is not an entity"),
                    },
                ),
                None => Err(
                    RuleError { message: text::cat2("undefined variable: ", name.as_str()) },
                ),
            },
            Expr::Blank(_) => if is_derive {
                Ok(model.blank())
            } else {
                Err(fault("blank nodes not allowed in rules"))
            },
            Expr::Query(query) => {
                let found = QueryEngine::new().execute(model, &query.path)?;
                if found.len() == 1 {
                    Ok(found[0])
                } else if found.len() == 0 {
                    Err(fault("query returned no results, expected single entity"))
                } else {
                    let count = text::decimal_text(found.len() as u64);
                    Err(
                        RuleError {
                            message: text::cat3(
                                "query returned ",
                                count.as_str(),
                                " results, expected single entity",
                            ),
                        },
                    )
                }
            },
            Expr::QName(name) => {
                let full = name.to_text();
                match model.resolve(full.as_str()) {
                    Some(id) => Ok(id),
                    None => Err(
                        RuleError { message: text::cat2("unresolved name: ", full.as_str()) },
                    ),
                }
            },
            Expr::Add(add) => self.eval_add(model, add, env, is_derive),
            Expr::As(_) => Err(fault("as() expression cannot be converted to entity")),
            _ => Err(not_an_entity(show_expr(expr).as_str())),
        }
    }
}

// ---------------------------------------------------------------------------
// Findings
// ---------------------------------------------------------------------------

impl RuleEngine {
    /// The severity of a finding on an obligation.
    fn severity_for_modal(modal: Modal) -> (r: &'static str)
        ensures
            r@ == semantics::severity_name(modal),
    {
        match modal {
            Modal::Must => "core:Error",
            Modal::Should => "core:Warning",
            Modal::May => "core:Info",
        }
    }

    /// Adds a finding on an obligation that is not met.
    pub fn create_rich_failure(
        &self,
        model: &mut Model,
        rule_name: &str,
        subject: Option<EntityId>,
        area: Option<EntityId>,
        message: Option<&String>,
        modal: Modal,
    ) -> (r: Result<(), RuleError>)
        ensures
            (final(model)@, rule_outcome(r)) == semantics::rich_failure(
                old(model)@,
                rule_name@,
                subject,
                area,
                match message {
                    Some(s) => Some(s@),
                    None => None,
                },
                modal,
            ),
            r is Ok && final(model)@.ids_fit() && graph::is_silent_on_new(
                old(model)@,
                final(model)@,
            ) ==> semantics::error_count(final(model)@) == semantics::error_count(old(model)@)
                + if modal is Must {
                1nat
            } else {
                0nat
            },
    {
        proof {
            let words = match message {
                Some(s) => Some(s@),
                None => None,
            };
            let end = semantics::rich_failure(
                old(model)@,
                rule_name@,
                subject,
                area,
                words,
                modal,
            );
            if end.1 is Ok && end.0.ids_fit() && graph::is_silent_on_new(old(model)@, end.0) {
                laws::lemma_unmet_obligation_counts(
                    old(model)@,
                    rule_name@,
                    subject,
                    area,
                    words,
                    modal,
                );
            }
        }
        let failure = model.blank();
        prefixed(
            model.apply_to(failure, "wa2:type", "core:AssertFailure"),
            "failed to create failure node: ",
        )?;
        let word = match modal {
            Modal::Must => "must",
            Modal::Should => "should",
            Modal::May => "may",
        };
        let assertion = text::cat4(rule_name, ": ", word, " obligation not satisfied");
        prefixed(
            model.apply_literal(failure, "core:assertion", assertion.as_str()),
            "failed to set assertion: ",
        )?;
        if let Some(id) = subject {
            prefixed(
                model.apply_entity(failure, "core:subject", id),
                "failed to set subject: ",
            )?;
        }
        if let Some(id) = area {
            prefixed(model.apply_entity(failure, "core:area", id), "failed to set area: ")?;
        }
        if let Some(s) = message {
            prefixed(
                model.apply_literal(failure, "core:message", s.as_str()),
                "failed to set message: ",
            )?;
        }
        prefixed(
            model.apply_to(failure, "core:severity", Self::severity_for_modal(modal)),
            "failed to set severity: ",
        )
    }

    /// The entity that a finding without a subject is about.
    fn get_context_entity(&self, env: &Env) -> (r: Option<EntityId>)
        ensures
            r == semantics::context_entity(env@),
    {
        env.last_entity()
    }

    /// Adds a finding on an assertion that does not hold.
    fn create_failure(&self, model: &mut Model, rule_name: &str, message: &str) -> (r: Result<
        (),
        RuleError,
    >)
        ensures
            (final(model)@, rule_outcome(r)) == semantics::plain_failure(
                old(model)@,
                rule_name@,
                message@,
                None,
            ),
    {
        self.create_failure_with_context(model, rule_name, message, None)
    }

    /// Adds a finding on an assertion that does not hold, about an entity.
    pub fn create_failure_with_context(
        &self,
        model: &mut Model,
        rule_name: &str,
        message: &str,
        context: Option<EntityId>,
    ) -> (r: Result<(), RuleError>)
        ensures
            (final(model)@, rule_outcome(r)) == semantics::plain_failure(
                old(model)@,
                rule_name@,
                message@,
                context,
            ),
            r is Ok && final(model)@.ids_fit() && graph::is_silent_on_new(
                old(model)@,
                final(model)@,
            ) ==> semantics::error_count(final(model)@) == semantics::error_count(old(model)@),
    {
        proof {
            let end = semantics::plain_failure(old(model)@, rule_name@, message@, context);
            if end.1 is Ok && end.0.ids_fit() && graph::is_silent_on_new(old(model)@, end.0) {
                laws::lemma_failed_assertion_counts(old(model)@, rule_name@, message@, context);
            }
        }
        let failure = model.blank();
        prefixed(
            model.apply_to(failure, "wa2:type", "core:AssertFailure"),
            "failed to create failure node: ",
        )?;
        let assertion = text::cat3(rule_name, ": ", message);
        prefixed(
            model.apply_literal(failure, "core:assertion", assertion.as_str()),
            "failed to set assertion message: ",
        )?;
        if let Some(id) = context {
            prefixed(
                model.apply_entity(failure, "core:subject", id),
                "failed to link failure to subject: ",
            )?;
        }
        Ok(())
    }
}

// ---------------------------------------------------------------------------
// Statements
// ---------------------------------------------------------------------------

/// What a statement leaves its body to do.
#[derive(Debug, Clone, Copy, PartialEq, Eq, Structural)]
enum StmtResult {
    Continue,
    /// A guard stopped the body.
    Guard,
}

/// The view of the outcome of a statement.
spec fn guard_outcome(r: Result<StmtResult, RuleError>) -> Result<bool, Seq<char>> {
    match r {
        Ok(result) => Ok(result == StmtResult::Guard),
        Err(e) => Err(e.message@),
    }
}

/// The view of the outcome of a body.
spec fn body_outcome(r: Result<(), RuleError>) -> Result<bool, Seq<char>> {
    match r {
        Ok(_) => Ok(false),
        Err(e) => Err(e.message@),
    }
}

/// A guard or fault decides the outcome of statements.
proof fn lemma_statements_stop(w: World, body: Seq<Statement>, f: Frame, k: int)
    requires
        0 <= k <= body.len(),
        semantics::run_statements(w, body.take(k), f).1 != Ok::<bool, Seq<char>>(false),
    ensures
        semantics::run_statements(w, body, f) == semantics::run_statements(w, body.take(k), f),
    decreases body.len(),
{
    if k == body.len() {
        assert(body.take(k) =~= body);
    } else {
        assert(body.drop_last().take(k) =~= body.take(k));
        lemma_statements_stop(w, body.drop_last(), f, k);
        semantics::lemma_statements_step(w, body, f);
    }
}

/// A fault decides the outcome of a loop.
proof fn lemma_loop_stops(
    w: World,
    var: Seq<char>,
    ids: Seq<EntityId>,
    body: Seq<Statement>,
    f: Frame,
    k: int,
)
    requires
        0 <= k <= ids.len(),
        semantics::run_loop(w, var, ids.take(k), body, f).1 is Err,
    ensures
        semantics::run_loop(w, var, ids, body, f) == semantics::run_loop(
            w,
            var,
            ids.take(k),
            body,
            f,
        ),
    decreases ids.len(),
{
    if k == ids.len() {
        assert(ids.take(k) =~= ids);
    } else {
        assert(ids.drop_last().take(k) =~= ids.take(k));
        lemma_loop_stops(w, var, ids.drop_last(), body, f, k);
        semantics::lemma_loop_step(w, var, ids, body, f);
    }
}

/// A copy of loop variables with one more.
fn extended(binding: &ReferenceBinding, var: &String, id: EntityId) -> (r: ReferenceBinding)
    ensures
        pair_views(r@) == pair_views(binding@).push((var@, id)),
{
    let mut out: ReferenceBinding = Vec::new();
    let ghost all = pair_views(binding@);
    for i in 0..binding.len()
        invariant
            all == pair_views(binding@),
            pair_views(out@) == all.take(i as int),
    {
        let ghost before = pair_views(out@);
        out.push((binding[i].0.clone(), binding[i].1));
        assert(pair_views(out@) =~= before.push(all[i as int]));
        assert(all.take(i + 1) =~= all.take(i as int).push(all[i as int]));
    }
    assert(all.take(all.len() as int) =~= all);
    let ghost before = pair_views(out@);
    out.push((var.clone(), id));
    assert(pair_views(out@) =~= before.push((var@, id)));
    out
}

/// Whether two lists of loop variables are the same.
fn same_binding(a: &ReferenceBinding, b: &ReferenceBinding) -> (r: bool)
    ensures
        r == (pair_views(a@) == pair_views(b@)),
{
    let ghost x = pair_views(a@);
    let ghost y = pair_views(b@);
    if a.len() != b.len() {
        assert(x.len() != y.len());
        return false;
    }
    for i in 0..a.len()
        invariant
            a.len() == b.len(),
            x == pair_views(a@),
            y == pair_views(b@),
            forall|j: int| 0 <= j < i ==> #[trigger] x[j] == y[j],
    {
        if a[i].1 != b[i].1 || a[i].0 != b[i].0 {
            assert(x[i as int] != y[i as int]);
            return false;
        }
        assert(x[i as int] == y[i as int]);
    }
    assert(x =~= y);
    true
}

impl RuleEngine {
    /// Whether a rule has executed a loop body with some loop variables.
    fn has_processed(&self, rule_name: &str, binding: &ReferenceBinding) -> (r: bool)
        ensures
            r == self@.contains(
                VisitView { rule: rule_name@, binding: pair_views(binding@) },
            ),
    {
        let ghost visit = VisitView { rule: rule_name@, binding: pair_views(binding@) };
        for i in 0..self.processed.len()
            invariant
                visit == (VisitView { rule: rule_name@, binding: pair_views(binding@) }),
                forall|j: int| 0 <= j < i ==> self@[j] != visit,
        {
            if text::same_text(self.processed[i].rule.as_str(), rule_name) && same_binding(
                &self.processed[i].binding,
                binding,
            ) {
                assert(self@[i as int] == visit);
                return true;
            }
            assert(self@[i as int] != visit);
        }
        false
    }

    /// Records that a rule executes a loop body with some loop variables.
    fn record(&mut self, rule_name: &str, binding: ReferenceBinding)
        ensures
            final(self)@ == old(self)@.push(
                VisitView { rule: rule_name@, binding: pair_views(binding@) },
            ),
    {
        let ghost before = self@;
        let visit = Visit { rule: rule_name.to_owned(), binding };
        let ghost seen = visit@;
        self.processed.push(visit);
        assert(self@ =~= before.push(seen));
    }

    /// Forgets what was executed.
    fn forget(&mut self)
        ensures
            final(self)@ == Seq::<VisitView>::empty(),
    {
        self.processed = Vec::new();
        assert(self@ =~= Seq::<VisitView>::empty());
    }

    /// Executes statements one after another, up to a guard or fault.
    fn execute_statements(
        &mut self,
        model: &mut Model,
        stmts: &Vec<Statement>,
        env: &mut Env,
        rule_name: &str,
        reference_binding: &ReferenceBinding,
        is_derive: bool,
    ) -> (r: Result<(), RuleError>)
        ensures
            (
                World { model: final(model)@, visited: final(self)@, env: final(env)@ },
                body_outcome(r),
            ) == semantics::finished(
                semantics::run_statements(
                    World { model: old(model)@, visited: old(self)@, env: old(env)@ },
                    stmts@,
                    Frame {
                        rule: rule_name@,
                        binding: pair_views(reference_binding@),
                        in_derive: is_derive,
                    },
                ),
            ),
        decreases stmts@, 0int,
    {
        let ghost start = World { model: model@, visited: self@, env: env@ };
        let ghost f = Frame {
            rule: rule_name@,
            binding: pair_views(reference_binding@),
            in_derive: is_derive,
        };
        let n: usize = stmts.len();
        proof {
            semantics::lemma_no_statements(start, f);
            assert(stmts@.take(0) =~= seq![]);
        }
        for i in 0..n
            invariant
                n == stmts.len(),
                start == (World { model: old(model)@, visited: old(self)@, env: old(env)@ }),
                f == (Frame {
                    rule: rule_name@,
                    binding: pair_views(reference_binding@),
                    in_derive: is_derive,
                }),
                (
                    World { model: model@, visited: self@, env: env@ },
                    Ok::<bool, Seq<char>>(false),
                ) == semantics::run_statements(start, stmts@.take(i as int), f),
        {
            assert(stmts@.take(i + 1).drop_last() =~= stmts@.take(i as int));
            assert(stmts@.take(i + 1).last() == stmts@[i as int]);
            proof {
                semantics::lemma_statements_step(start, stmts@.take(i + 1), f);
            }
            assert(decreases_to!(stmts@ => stmts@[i as int]));
            let result = self.execute_statement(
                model,
                &stmts[i],
                env,
                rule_name,
                reference_binding,
                is_derive,
            );
            match result {
                Ok(StmtResult::Continue) => {},
                Ok(StmtResult::Guard) => {
                    proof {
                        lemma_statements_stop(start, stmts@, f, i + 1);
                    }
                    return Ok(());
                },
                Err(e) => {
                    proof {
                        lemma_statements_stop(start, stmts@, f, i + 1);
                    }
                    return Err(e);
                },
            }
        }
        assert(stmts@.take(n as int) =~= stmts@);
        Ok(())
    }

    /// Executes the body of a loop for each entity for which this rule has not
    /// executed it with the same loop variables.
    fn execute_for(
        &mut self,
        model: &mut Model,
        var: &String,
        entities: &Vec<EntityId>,
        body: &Vec<Statement>,
        env: &Env,
        rule_name: &str,
        reference_binding: &ReferenceBinding,
        is_derive: bool,
    ) -> (r: Result<(), RuleError>)
        ensures
            (
                World { model: final(model)@, visited: final(self)@, env: env@ },
                body_outcome(r),
            ) == semantics::run_loop(
                World { model: old(model)@, visited: old(self)@, env: env@ },
                var@,
                entities@,
                body@,
                Frame {
                    rule: rule_name@,
                    binding: pair_views(reference_binding@),
                    in_derive: is_derive,
                },
            ),
        decreases body@, entities@.len() + 1,
    {
        let ghost start = World { model: model@, visited: self@, env: env@ };
        let ghost f = Frame {
            rule: rule_name@,
            binding: pair_views(reference_binding@),
            in_derive: is_derive,
        };
        let n: usize = entities.len();
        proof {
            semantics::lemma_no_loop(start, var@, body@, f);
            assert(entities@.take(0) =~= seq![]);
        }
        for i in 0..n
            invariant
                n == entities.len(),
                start == (World { model: old(model)@, visited: old(self)@, env: env@ }),
                f == (Frame {
                    rule: rule_name@,
                    binding: pair_views(reference_binding@),
                    in_derive: is_derive,
                }),
                (
                    World { model: model@, visited: self@, env: env@ },
                    Ok::<bool, Seq<char>>(false),
                ) == semantics::run_loop(start, var@, entities@.take(i as int), body@, f),
        {
            let entity = entities[i];
            assert(entities@.take(i + 1).drop_last() =~= entities@.take(i as int));
            assert(entities@.take(i + 1).last() == entity);
            proof {
                semantics::lemma_loop_step(start, var@, entities@.take(i + 1), body@, f);
            }
            let binding = extended(reference_binding, var, entity);
            if !self.has_processed(rule_name, &binding) {
                self.record(rule_name, extended(reference_binding, var, entity));
                let mut inner = env.clone();
                inner.bind(var.clone(), EvalResult::Entity(entity));
                let result = self.execute_statements(
                    model,
                    body,
                    &mut inner,
                    rule_name,
                    &binding,
                    is_derive,
                );
                match result {
                    Ok(_) => {},
                    Err(e) => {
                        proof {
                            lemma_loop_stops(start, var@, entities@, body@, f, i + 1);
                        }
                        return Err(e);
                    },
                }
            }
        }
        assert(entities@.take(n as int) =~= entities@);
        Ok(())
    }

    /// Executes an `add` statement.
    fn execute_add(&self, model: &mut Model, add: &AddStmt, env: &Env, is_derive: bool) -> (r: Result<
        (),
        RuleError,
    >)
        ensures
            forall|w: World, f: Frame|
                w.model == old(model)@ && w.env == env@ && f.in_derive == is_derive ==> (
                World { model: final(model)@, ..w },
                body_outcome(r),
            ) == #[trigger] semantics::run_add(w, *add, f),
    {
        if !is_derive {
            return Err(fault("add statements not allowed in rules"));
        }
        let subject = self.eval_expr_to_entity(model, &add.subject, env, is_derive)?;
        let object = self.eval_expr(model, &add.object, env, is_derive)?;
        self.attach(model, subject, &add.predicate, object)?;
        Ok(())
    }

    /// Executes an obligation: adds a finding where it is not met.
    fn execute_modal(
        &self,
        model: &mut Model,
        stmt: &ModalStmt,
        env: &Env,
        rule_name: &str,
        is_derive: bool,
    ) -> (r: Result<StmtResult, RuleError>)
        ensures
            forall|w: World, f: Frame|
                w.model == old(model)@ && w.env == env@ && f.in_derive == is_derive && f.rule
                    == rule_name@ ==> (
                World { model: final(model)@, ..w },
                guard_outcome(r),
            ) == #[trigger] semantics::run_modal(w, *stmt, f),
    {
        let value = self.eval_expr(model, &stmt.expr, env, is_derive)?;
        if self.is_satisfied(&value) {
            return Ok(StmtResult::Continue);
        }
        let subject = match &stmt.metadata {
            Some(data) => match &data.subject {
                Some(expr) => {
                    let id = self.eval_expr_to_entity(model, expr, env, is_derive)?;
                    Some(id)
                },
                None => self.get_context_entity(env),
            },
            None => self.get_context_entity(env),
        };
        let area = match &stmt.metadata {
            Some(data) => match &data.area {
                Some(name) => {
                    let full = name.to_text();
                    model.resolve(full.as_str())
                },
                None => None,
            },
            None => None,
        };
        let message = match &stmt.metadata {
            Some(data) => data.message.as_ref(),
            None => None,
        };
        self.create_rich_failure(model, rule_name, subject, area, message, stmt.modal)?;
        if stmt.modal == Modal::May {
            Ok(StmtResult::Continue)
        } else {
            Ok(StmtResult::Guard)
        }
    }

    /// Executes a statement.
    fn execute_statement(
        &mut self,
        model: &mut Model,
        stmt: &Statement,
        env: &mut Env,
        rule_name: &str,
        reference_binding: &ReferenceBinding,
        is_derive: bool,
    ) -> (r: Result<StmtResult, RuleError>)
        ensures
            (
                World { model: final(model)@, visited: final(self)@, env: final(env)@ },
                guard_outcome(r),
            ) == semantics::run_statement(
                World { model: old(model)@, visited: old(self)@, env: old(env)@ },
                *stmt,
                Frame {
                    rule: rule_name@,
                    binding: pair_views(reference_binding@),
                    in_derive: is_derive,
                },
            ),
        decreases *stmt, 0int,
    {
        let ghost w = World { model: model@, visited: self@, env: env@ };
        let ghost f = Frame {
            rule: rule_name@,
            binding: pair_views(reference_binding@),
            in_derive: is_derive,
        };
        proof {
            reveal_with_fuel(semantics::run_statement, 1);
        }
        match stmt {
            Statement::Let(binding) => {
                let value = self.eval_expr(model, &binding.value, env, is_derive)?;
                env.bind(binding.name.clone(), value);
                Ok(StmtResult::Continue)
            },
            Statement::Add(add) => {
                let result = self.execute_add(model, add, env, is_derive);
                proof {
                    let _ = semantics::run_add(w, *add, f);
                }
                result?;
                Ok(StmtResult::Continue)
            },
            Statement::For(each) => {
                let collection = self.eval_expr(model, &each.collection, env, is_derive)?;
                let entities = collection.nodes();
                self.execute_for(
                    model,
                    &each.var,
                    &entities,
                    &each.body,
                    env,
                    rule_name,
                    reference_binding,
                    is_derive,
                )?;
                Ok(StmtResult::Continue)
            },
            Statement::If(choice) => {
                let condition = self.eval_expr(model, &choice.condition, env, is_derive)?;
                if self.is_satisfied(&condition) {
                    self.execute_statements(
                        model,
                        &choice.then_body,
                        env,
                        rule_name,
                        reference_binding,
                        is_derive,
                    )?;
                } else if let Some(body) = &choice.else_body {
                    self.execute_statements(
                        model,
                        body,
                        env,
                        rule_name,
                        reference_binding,
                        is_derive,
                    )?;
                }
                Ok(StmtResult::Continue)
            },
            Statement::Assert(claim) => {
                let value = self.eval_expr(model, &claim.expr, env, is_derive)?;
                if !self.is_satisfied(&value) {
                    self.create_failure(model, rule_name, "assertion failed")?;
                }
                Ok(StmtResult::Continue)
            },
            Statement::Modal(obligation) => {
                let result = self.execute_modal(model, obligation, env, rule_name, is_derive);
                proof {
                    let _ = semantics::run_modal(w, *obligation, f);
                }
                result
            },
        }
    }
}

// ---------------------------------------------------------------------------
// Policies
// ---------------------------------------------------------------------------

/// How many passes over the derives there are at most.
pub const MAX_ITERATIONS: usize = 100;

/// A rule in a policy, with the name of the policy.
#[derive(Debug)]
pub struct OrderedBinding {
    pub policy_name: String,
    pub modal: Modal,
    pub rule_name: String,
}

impl View for OrderedBinding {
    type V = PolicyRuleView;

    open spec fn view(&self) -> PolicyRuleView {
        PolicyRuleView { policy: self.policy_name@, modal: self.modal, rule: self.rule_name@ }
    }
}

/// The view of the rules of a policy.
pub open spec fn ordered_views(bindings: Seq<OrderedBinding>) -> Seq<PolicyRuleView> {
    Seq::new(bindings.len(), |i: int| bindings[i]@)
}

/// The record of the execution of a rule.
#[derive(Debug)]
pub struct RuleExecution {
    pub policy_name: String,
    pub rule_name: String,
    pub modal: Modal,
    pub passed: bool,
    pub finding_count: usize,
}

impl View for RuleExecution {
    type V = ExecutionView;

    open spec fn view(&self) -> ExecutionView {
        ExecutionView {
            policy: self.policy_name@,
            rule: self.rule_name@,
            modal: self.modal,
            passed: self.passed,
            findings: self.finding_count as nat,
        }
    }
}

/// The view of the records of a policy.
pub open spec fn trace_views(trace: Seq<RuleExecution>) -> Seq<ExecutionView> {
    Seq::new(trace.len(), |i: int| trace[i]@)
}

/// The result of a policy, with the records of its rules.
#[derive(Debug)]
pub struct PolicyExecutionResult {
    pub outcome: PolicyOutcome,
    pub trace: Vec<RuleExecution>,
}

/// Whether an execution of a policy ended as stated.
pub open spec fn policy_ended(
    r: Result<PolicyExecutionResult, RuleError>,
    end: (Progress, Result<(), Seq<char>>),
) -> bool {
    match r {
        Ok(result) => end.1 is Ok && result.outcome == end.0.outcome && trace_views(result.trace@)
            == end.0.trace,
        Err(e) => end.1 == Err::<(), Seq<char>>(e.message@),
    }
}

/// The rules that a policy can name.
enum RuleTable<'a> {
    Named(&'a NameMap<Rule>),
    Listed(&'a [Rule]),
}

impl<'a> RuleTable<'a> {
    /// The rules by name.
    spec fn rules(self) -> Map<Seq<char>, Rule> {
        match self {
            RuleTable::Named(map) => map@,
            RuleTable::Listed(rules) => semantics::listed(rules@),
        }
    }

    /// The rule that bears a name.
    fn find(&self, name: &str) -> (r: Option<&'a Rule>)
        ensures
            match r {
                Some(rule) => self.rules().contains_key(name@) && *rule == self.rules()[name@],
                None => !self.rules().contains_key(name@),
            },
    {
        match self {
            RuleTable::Named(map) => map.get(name),
            RuleTable::Listed(rules) => {
                let mut i: usize = rules.len();
                let ghost all = semantics::listed(rules@);
                assert(rules@.take(i as int) =~= rules@);
                while i > 0
                    invariant
                        i <= rules.len(),
                        all == semantics::listed(rules@),
                        all.contains_key(name@) == semantics::listed(
                            rules@.take(i as int),
                        ).contains_key(name@),
                        all.contains_key(name@) ==> all[name@] == semantics::listed(
                            rules@.take(i as int),
                        )[name@],
                        self.rules() == all,
                    decreases i,
                {
                    i = i - 1;
                    assert(rules@.take(i + 1).drop_last() =~= rules@.take(i as int));
                    if text::same_text(rules[i].name.as_str(), name) {
                        return Some(&rules[i]);
                    }
                }
                None
            },
        }
    }
}

/// There are no findings without their vocabulary.
proof fn lemma_no_error_findings(m: ModelView, n: nat)
    requires
        m.resolve("core:AssertFailure"@) is None || m.resolve("core:severity"@) is None
            || m.resolve("core:Error"@) is None,
    ensures
        semantics::error_findings(m, n) == 0,
    decreases n,
{
    if n > 0 {
        lemma_no_error_findings(m, (n - 1) as nat);
    }
}

/// A fault decides the outcome of a pass over the derives.
proof fn lemma_pass_stops(s: State, derives: Seq<Derive>, k: int)
    requires
        0 <= k <= derives.len(),
        semantics::derive_pass(s, derives.take(k)).1 is Err,
    ensures
        semantics::derive_pass(s, derives) == semantics::derive_pass(s, derives.take(k)),
    decreases derives.len(),
{
    if k == derives.len() {
        assert(derives.take(k) =~= derives);
    } else {
        assert(derives.drop_last().take(k) =~= derives.take(k));
        lemma_pass_stops(s, derives.drop_last(), k);
    }
}

/// A fault or a must rule that failed decides the outcome of a policy.
proof fn lemma_policy_stops(
    p: Progress,
    rules: Map<Seq<char>, Rule>,
    bindings: Seq<PolicyRuleView>,
    k: int,
)
    requires
        0 <= k <= bindings.len(),
        semantics::policy_steps(p, rules, bindings.take(k)).1 is Err || semantics::policy_steps(
            p,
            rules,
            bindings.take(k),
        ).0.stopped,
    ensures
        semantics::policy_steps(p, rules, bindings) == semantics::policy_steps(
            p,
            rules,
            bindings.take(k),
        ),
    decreases bindings.len(),
{
    if k == bindings.len() {
        assert(bindings.take(k) =~= bindings);
    } else {
        assert(bindings.drop_last().take(k) =~= bindings.take(k));
        lemma_policy_stops(p, rules, bindings.drop_last(), k);
    }
}

impl RuleEngine {
    /// Executes a body for itself.
    fn execute_body(&mut self, model: &mut Model, name: &str, body: &Vec<Statement>, is_derive: bool) -> (r:
        Result<(), RuleError>)
        ensures
            (
                State { model: final(model)@, visited: final(self)@ },
                rule_outcome(r),
            ) == semantics::run_body(
                State { model: old(model)@, visited: old(self)@ },
                name@,
                body@,
                is_derive,
            ),
    {
        let mut env = Env::new();
        let binding: ReferenceBinding = Vec::new();
        assert(pair_views(binding@) =~= seq![]);
        self.execute_statements(model, body, &mut env, name, &binding, is_derive)
    }

    fn execute_derive(&mut self, model: &mut Model, derive: &Derive) -> (r: Result<(), RuleError>)
        ensures
            (
                State { model: final(model)@, visited: final(self)@ },
                rule_outcome(r),
            ) == semantics::run_body(
                State { model: old(model)@, visited: old(self)@ },
                derive.name@,
                derive.body@,
                true,
            ),
    {
        self.execute_body(model, derive.name.as_str(), &derive.body, true)
    }

    fn execute_rule(&mut self, model: &mut Model, rule: &Rule) -> (r: Result<(), RuleError>)
        ensures
            (
                State { model: final(model)@, visited: final(self)@ },
                rule_outcome(r),
            ) == semantics::run_body(
                State { model: old(model)@, visited: old(self)@ },
                rule.name@,
                rule.body@,
                false,
            ),
    {
        self.execute_body(model, rule.name.as_str(), &rule.body, false)
    }

    /// Executes all derives, one after another.
    fn execute_derives(&mut self, model: &mut Model, derives: &[Derive]) -> (r: Result<(), RuleError>)
        ensures
            (
                State { model: final(model)@, visited: final(self)@ },
                rule_outcome(r),
            ) == semantics::derive_pass(
                State { model: old(model)@, visited: old(self)@ },
                derives@,
            ),
    {
        let ghost start = State { model: model@, visited: self@ };
        let n: usize = derives.len();
        for i in 0..n
            invariant
                n == derives.len(),
                start == (State { model: old(model)@, visited: old(self)@ }),
                (
                    State { model: model@, visited: self@ },
                    Ok::<(), Seq<char>>(()),
                ) == semantics::derive_pass(start, derives@.take(i as int)),
        {
            assert(derives@.take(i + 1).drop_last() =~= derives@.take(i as int));
            let result = self.execute_derive(model, &derives[i]);
            match result {
                Ok(_) => {},
                Err(e) => {
                    proof {
                        lemma_pass_stops(start, derives@, i + 1);
                    }
                    return Err(e);
                },
            }
        }
        assert(derives@.take(n as int) =~= derives@);
        Ok(())
    }

    /// Executes the derives until a pass makes no statement.
    pub fn run_derives(&mut self, model: &mut Model, derives: &[Derive]) -> (r: Result<(), RuleError>)
        ensures
            (
                State { model: final(model)@, visited: final(self)@ },
                rule_outcome(r),
            ) == semantics::derive_passes(
                State { model: old(model)@, visited: seq![] },
                derives@,
                MAX_ITERATIONS as nat,
            ),
    {
        self.forget();
        let ghost all = semantics::derive_passes(
            State { model: model@, visited: seq![] },
            derives@,
            MAX_ITERATIONS as nat,
        );
        for i in 0..MAX_ITERATIONS
            invariant
                all == semantics::derive_passes(
                    State { model: old(model)@, visited: seq![] },
                    derives@,
                    MAX_ITERATIONS as nat,
                ),
                all == semantics::derive_passes(
                    State { model: model@, visited: self@ },
                    derives@,
                    (MAX_ITERATIONS - i) as nat,
                ),
        {
            let initial_count: usize = model.statement_count();
            self.execute_derives(model, derives)?;
            let final_count: usize = model.statement_count();
            if final_count == initial_count {
                return Ok(());
            }
        }
        Ok(())
    }

    /// How many findings of the highest severity there are.
    pub fn count_error_findings(&self, model: &Model) -> (r: usize)
        ensures
            r == semantics::error_count(model@),
    {
        let count: usize = model.entity_count();
        let (kind, severity, error) = match (
            model.resolve("core:AssertFailure"),
            model.resolve("core:severity"),
            model.resolve("core:Error"),
        ) {
            (Some(kind), Some(severity), Some(error)) => (kind, severity, error),
            _ => {
                proof {
                    lemma_no_error_findings(model@, count as nat);
                }
                return 0;
            },
        };
        let mut found: usize = 0;
        for i in 0..count
            invariant
                count == model@.names.len(),
                model@.resolve("core:AssertFailure"@) == Some(kind),
                model@.resolve("core:severity"@) == Some(severity),
                model@.resolve("core:Error"@) == Some(error),
                found <= i,
                found == semantics::error_findings(model@, i as nat),
        {
            let entity = entity_id(i);
            if model.has_type(entity, kind) && model.has(entity, severity, &Term::Entity(error)) {
                found = found + 1;
            }
        }
        found
    }

    /// Executes the rules of a policy in order, up to a must rule that fails.
    fn run_rules(&mut self, model: &mut Model, rules: &RuleTable, bindings: &[OrderedBinding]) -> (r:
        Result<PolicyExecutionResult, RuleError>)
        ensures
            ({
                let end = semantics::policy_steps(
                    Progress {
                        state: State { model: old(model)@, visited: old(self)@ },
                        outcome: PolicyOutcome::Pass,
                        trace: seq![],
                        stopped: false,
                    },
                    rules.rules(),
                    ordered_views(bindings@),
                );
                &&& end.0.state == (State { model: final(model)@, visited: final(self)@ })
                &&& policy_ended(r, end)
            }),
    {
        let ghost start = Progress {
            state: State { model: model@, visited: self@ },
            outcome: PolicyOutcome::Pass,
            trace: seq![],
            stopped: false,
        };
        let ghost all = ordered_views(bindings@);
        let mut outcome = PolicyOutcome::Pass;
        let mut trace: Vec<RuleExecution> = Vec::new();
        assert(trace_views(trace@) =~= seq![]);
        let n: usize = bindings.len();
        for i in 0..n
            invariant
                n == bindings.len(),
                start == (Progress {
                    state: State { model: old(model)@, visited: old(self)@ },
                    outcome: PolicyOutcome::Pass,
                    trace: seq![],
                    stopped: false,
                }),
                all == ordered_views(bindings@),
                (
                    Progress {
                        state: State { model: model@, visited: self@ },
                        outcome,
                        trace: trace_views(trace@),
                        stopped: false,
                    },
                    Ok::<(), Seq<char>>(()),
                ) == semantics::policy_steps(start, rules.rules(), all.take(i as int)),
        {
            let binding = &bindings[i];
            assert(all.take(i + 1).drop_last() =~= all.take(i as int));
            assert(all.take(i + 1).last() == binding@);
            if let Some(rule) = rules.find(binding.rule_name.as_str()) {
                let ghost before = trace_views(trace@);
                let errors_before: usize = self.count_error_findings(model);
                match self.execute_rule(model, rule) {
                    Ok(_) => {},
                    Err(e) => {
                        proof {
                            lemma_policy_stops(start, rules.rules(), all, i + 1);
                        }
                        return Err(e);
                    },
                }
                let errors_after: usize = self.count_error_findings(model);
                let new_errors: usize = if errors_after >= errors_before {
                    errors_after - errors_before
                } else {
                    0
                };
                let failed = new_errors > 0;
                let record = RuleExecution {
                    policy_name: binding.policy_name.clone(),
                    rule_name: binding.rule_name.clone(),
                    modal: binding.modal,
                    passed: !failed,
                    finding_count: new_errors,
                };
                let ghost entry = record@;
                trace.push(record);
                assert(trace_views(trace@) =~= before.push(entry));
                if failed && binding.modal == Modal::Must {
                    proof {
                        lemma_policy_stops(start, rules.rules(), all, i + 1);
                    }
                    return Ok(PolicyExecutionResult { outcome: PolicyOutcome::Fail, trace });
                }
                if failed && binding.modal == Modal::Should {
                    outcome = PolicyOutcome::Degraded;
                }
            }
        }
        assert(all.take(n as int) =~= all);
        Ok(PolicyExecutionResult { outcome, trace })
    }

    /// Executes the derives, then the rules of a policy from a table.
    fn run_phases(
        &mut self,
        model: &mut Model,
        derives: &[Derive],
        rules: &RuleTable,
        bindings: &[OrderedBinding],
    ) -> (r: Result<PolicyExecutionResult, RuleError>)
        ensures
            ({
                let end = semantics::policy_run(
                    old(model)@,
                    derives@,
                    rules.rules(),
                    ordered_views(bindings@),
                    MAX_ITERATIONS as nat,
                );
                &&& end.0.state == (State { model: final(model)@, visited: final(self)@ })
                &&& policy_ended(r, end)
            }),
    {
        self.run_derives(model, derives)?;
        self.forget();
        self.run_rules(model, rules, bindings)
    }

    /// Executes the derives, then the rules of a policy in its order.
    pub fn run_with_policy(
        &mut self,
        model: &mut Model,
        derives: &[Derive],
        rules: &NameMap<Rule>,
        bindings: &[OrderedBinding],
    ) -> (r: Result<PolicyExecutionResult, RuleError>)
        ensures
            ({
                let end = semantics::policy_run(
                    old(model)@,
                    derives@,
                    rules@,
                    ordered_views(bindings@),
                    MAX_ITERATIONS as nat,
                );
                &&& end.0.state == (State { model: final(model)@, visited: final(self)@ })
                &&& policy_ended(r, end)
            }),
    {
        self.run_phases(model, derives, &RuleTable::Named(rules), bindings)
    }

    /// Executes rules in their order, each as an obligation.
    pub fn run(&mut self, model: &mut Model, rules: &[Rule]) -> (r: Result<(), RuleError>)
        ensures
            ({
                let end = semantics::policy_run(
                    old(model)@,
                    seq![],
                    semantics::listed(rules@),
                    semantics::all_bindings(rules@),
                    MAX_ITERATIONS as nat,
                );
                &&& end.0.state == (State { model: final(model)@, visited: final(self)@ })
                &&& rule_outcome(r) == end.1
            }),
    {
        let mut bindings: Vec<OrderedBinding> = Vec::new();
        let ghost all = semantics::all_bindings(rules@);
        let n: usize = rules.len();
        for i in 0..n
            invariant
                n == rules.len(),
                all == semantics::all_bindings(rules@),
                ordered_views(bindings@) == all.take(i as int),
        {
            let ghost before = ordered_views(bindings@);
            let binding = OrderedBinding {
                policy_name: String::new(),
                modal: Modal::Must,
                rule_name: rules[i].name.clone(),
            };
            assert(binding@ == all[i as int]) by {
                assert(binding@.policy =~= seq![]);
            }
            bindings.push(binding);
            assert(ordered_views(bindings@) =~= before.push(all[i as int]));
            assert(all.take(i + 1) =~= all.take(i as int).push(all[i as int]));
        }
        assert(all.take(n as int) =~= all);
        let derives: Vec<Derive> = Vec::new();
        assert(derives@ =~= seq![]);
        self.run_phases(
            model,
            derives.as_slice(),
            &RuleTable::Listed(rules),
            bindings.as_slice(),
        )?;
        Ok(())
    }

    /// Executes the derives, then the rules that have a modal, in their order.
    pub fn run_with_modals(
        &mut self,
        model: &mut Model,
        derives: &[Derive],
        rules: &[Rule],
        rule_modals: &NameMap<Modal>,
    ) -> (r: Result<(), RuleError>)
        ensures
            ({
                let end = semantics::policy_run(
                    old(model)@,
                    derives@,
                    semantics::listed(rules@),
                    semantics::modal_bindings(rules@, rule_modals@),
                    MAX_ITERATIONS as nat,
                );
                &&& end.0.state == (State { model: final(model)@, visited: final(self)@ })
                &&& rule_outcome(r) == end.1
            }),
    {
        let mut bindings: Vec<OrderedBinding> = Vec::new();
        assert(ordered_views(bindings@) =~= seq![]);
        let n: usize = rules.len();
        for i in 0..n
            invariant
                n == rules.len(),
                ordered_views(bindings@) == semantics::modal_bindings(
                    rules@.take(i as int),
                    rule_modals@,
                ),
        {
            assert(rules@.take(i + 1).drop_last() =~= rules@.take(i as int));
            if let Some(modal) = rule_modals.get(rules[i].name.as_str()) {
                let ghost before = ordered_views(bindings@);
                let binding = OrderedBinding {
                    policy_name: String::new(),
                    modal: *modal,
                    rule_name: rules[i].name.clone(),
                };
                let ghost entry = binding@;
                assert(entry.policy =~= seq![]);
                bindings.push(binding);
                assert(ordered_views(bindings@) =~= before.push(entry));
            }
        }
        assert(rules@.take(n as int) =~= rules@);
        self.run_phases(model, derives, &RuleTable::Listed(rules), bindings.as_slice())?;
        Ok(())
    }
}

} // verus!
