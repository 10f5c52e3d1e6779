//! The analysis of a document: the intents and the graph of the document come
//! in, the findings of the rules go out.

use vstd::prelude::*;

use crate::diagnostics::{self, error_diagnostic, Diagnostic};
use crate::kernel::ast::{Derive, Modal, Rule};
use crate::kernel::rules::{
    self, OrderedBinding, PolicyExecutionResult, RuleEngine, RuleError, RuleExecution, MAX_ITERATIONS,
};
use crate::kernel::semantics::{self, PolicyOutcome};
use crate::model::view::{self, ModelView, ValueView};
use crate::model::{entity_id, EntityId, Model, Range, Term};
use crate::names::NameMap;
use crate::text;

verus! {

/// How grave a finding is.
#[derive(Debug, Clone, Copy, PartialEq, Eq, Structural)]
pub enum AssertSeverity {
    Error,
    Warning,
    Info,
}

/// A finding of a rule.
#[derive(Debug)]
pub struct AssertFailure {
    /// The node of the finding.
    pub entity: EntityId,
    /// What was asserted, behind the name of the rule.
    pub assertion: String,
    pub severity: AssertSeverity,
    /// What the finding is about.
    pub subject: Option<EntityId>,
    pub area: Option<EntityId>,
    pub message: Option<String>,
}

/// What a finding says.
pub struct FailureView {
    pub entity: EntityId,
    pub assertion: Seq<char>,
    pub severity: AssertSeverity,
    pub subject: Option<EntityId>,
    pub area: Option<EntityId>,
    pub message: Option<Seq<char>>,
}

impl View for AssertFailure {
    type V = FailureView;

    open spec fn view(&self) -> FailureView {
        FailureView {
            entity: self.entity,
            assertion: self.assertion@,
            severity: self.severity,
            subject: self.subject,
            area: self.area,
            message: self.message.deep_view(),
        }
    }
}

/// The views of a list of findings.
pub open spec fn failure_views(list: Seq<AssertFailure>) -> Seq<FailureView> {
    Seq::new(list.len(), |i: int| list[i]@)
}

/// Whether the graph states that a finding has a severity.
pub open spec fn has_severity(m: ModelView, id: EntityId, severity: Seq<char>) -> bool {
    match (m.resolve("core:severity"@), m.resolve(severity)) {
        (Some(predicate), Some(value)) => m.has(id, predicate, ValueView::Entity(value)),
        _ => false,
    }
}

/// How grave the graph says that a finding is. An assertion that failed without
/// a severity is an error.
pub open spec fn severity_of(m: ModelView, id: EntityId) -> AssertSeverity {
    if has_severity(m, id, "core:Warning"@) {
        AssertSeverity::Warning
    } else if has_severity(m, id, "core:Info"@) {
        AssertSeverity::Info
    } else {
        AssertSeverity::Error
    }
}

/// What the graph says of a finding.
pub open spec fn failure_at(m: ModelView, id: EntityId) -> FailureView {
    FailureView {
        entity: id,
        assertion: match m.literal(id, "core:assertion"@) {
            Some(s) => s,
            None => seq![],
        },
        severity: severity_of(m, id),
        subject: m.linked(id, "core:subject"@),
        area: m.linked(id, "core:area"@),
        message: m.literal(id, "core:message"@),
    }
}

/// The findings among the first `n` entities, in order.
pub open spec fn failures_among(m: ModelView, kind: EntityId, n: nat) -> Seq<FailureView>
    decreases n,
{
    if n == 0 {
        seq![]
    } else {
        let rest = failures_among(m, kind, (n - 1) as nat);
        let id = view::id_at(n - 1);
        if m.has_type(id, kind) {
            rest.push(failure_at(m, id))
        } else {
            rest
        }
    }
}

/// The findings in a graph, in order.
pub open spec fn failures_in(m: ModelView) -> Seq<FailureView> {
    match m.resolve("core:AssertFailure"@) {
        Some(kind) => failures_among(m, kind, m.names.len()),
        None => seq![],
    }
}

/// The result of an analysis.
#[derive(Debug)]
pub struct AnalysisResult {
    pub model: Model,
    pub failures: Vec<AssertFailure>,
    pub outcome: PolicyOutcome,
    pub trace: Vec<RuleExecution>,
    /// The name under which the document is shown.
    pub document: String,
}

/// Where a finding stands in the document: where its subject does.
pub open spec fn place_of(m: ModelView, failure: FailureView) -> Option<Range> {
    match failure.subject {
        Some(id) => view::last_range(m.sources, id),
        None => None,
    }
}

impl AnalysisResult {
    /// Where a finding stands in the document.
    pub fn resolve_failure_location(&self, failure: &AssertFailure) -> (r: Option<Range>)
        ensures
            r == place_of(self.model@, failure@),
    {
        match failure.subject {
            Some(id) => self.model.get_range(id),
            None => None,
        }
    }
}

/// What the rules are run on: the graph that holds the vocabulary of the intents
/// and the document, and the policy; or what stopped before that.
#[derive(Debug)]
pub enum Source {
    /// The intents could not be parsed.
    ParseFailed(String),
    /// The intents could not be brought into the graph.
    LowerFailed(String),
    /// The document could not be brought into the graph.
    ProjectFailed(Vec<Diagnostic>),
    Ready {
        model: Model,
        derives: Vec<Derive>,
        rules: NameMap<Rule>,
        bindings: Vec<OrderedBinding>,
        document: String,
    },
}

/// All rules of a list, each as an obligation of a policy without a name: the
/// table of the rules, and the policy.
pub fn all_rules(rules: Vec<Rule>) -> (r: (NameMap<Rule>, Vec<OrderedBinding>))
    ensures
        r.0@ == semantics::listed(rules@),
        rules::ordered_views(r.1@) == semantics::all_bindings(rules@),
{
    let ghost all = rules@;
    let ghost policy = semantics::all_bindings(all);
    let mut rest = rules;
    let mut table: NameMap<Rule> = NameMap::new();
    let mut bindings: Vec<OrderedBinding> = Vec::new();
    let n: usize = rest.len();
    let mut i: usize = 0;
    assert(all.take(0) =~= seq![]);
    assert(rules::ordered_views(bindings@) =~= policy.take(0));
    while i < n
        invariant
            n == all.len(),
            i <= n,
            policy == semantics::all_bindings(all),
            rest@ == all.skip(i as int),
            table@ == semantics::listed(all.take(i as int)),
            rules::ordered_views(bindings@) == policy.take(i as int),
        decreases n - i,
    {
        let ghost before = rules::ordered_views(bindings@);
        let rule = rest.remove(0);
        assert(rule == all[i as int]);
        assert(rest@ =~= all.skip(i + 1));
        let binding = OrderedBinding {
            policy_name: String::new(),
            modal: Modal::Must,
            rule_name: rule.name.clone(),
        };
        let ghost entry = binding@;
        assert(entry.policy =~= seq![]);
        bindings.push(binding);
        assert(rules::ordered_views(bindings@) =~= before.push(entry));
        assert(policy.take(i + 1) =~= policy.take(i as int).push(policy[i as int]));
        assert(all.take(i + 1).drop_last() =~= all.take(i as int));
        let name = rule.name.clone();
        table.insert(name, rule);
        i = i + 1;
    }
    assert(all.take(n as int) =~= all);
    assert(policy.take(n as int) =~= policy);
    (table, bindings)
}

/// The engine that analyses documents.
#[derive(Debug)]
pub struct Kernel {
    /// The text of the intents that every analysis starts from.
    pub bootstrap_source: String,
}

/// Whether an analysis of a source gave what it has to.
pub open spec fn analysed(source: Source, r: Result<AnalysisResult, Vec<Diagnostic>>) -> bool {
    match source {
        Source::ParseFailed(message) => r is Err && diagnostics::diagnostic_views(r->Err_0@)
            == seq![diagnostics::error_view("Parse error: "@ + message@)],
        Source::LowerFailed(message) => r is Err && diagnostics::diagnostic_views(r->Err_0@)
            == seq![diagnostics::error_view("Lower error: "@ + message@)],
        Source::ProjectFailed(list) => r == Err::<AnalysisResult, Vec<Diagnostic>>(list),
        Source::Ready { model, derives, rules, bindings, document } => {
            let end = semantics::policy_run(
                model@,
                derives@,
                rules@,
                rules::ordered_views(bindings@),
                MAX_ITERATIONS as nat,
            );
            match end.1 {
                Ok(_) => {
                    &&& r is Ok
                    &&& r->Ok_0.model@ == end.0.state.model
                    &&& r->Ok_0.outcome == end.0.outcome
                    &&& rules::trace_views(r->Ok_0.trace@) == end.0.trace
                    &&& failure_views(r->Ok_0.failures@) == failures_in(end.0.state.model)
                    &&& r->Ok_0.document == document
                },
                Err(message) => r is Err && diagnostics::diagnostic_views(r->Err_0@)
                    == seq![diagnostics::error_view("Rule error: "@ + message)],
            }
        },
    }
}

/// A list of one diagnostic.
fn only(diagnostic: Diagnostic) -> (r: Vec<Diagnostic>)
    ensures
        diagnostics::diagnostic_views(r@) == seq![diagnostic@],
{
    let ghost entry = diagnostic@;
    let r: Vec<Diagnostic> = vec![diagnostic];
    assert(diagnostics::diagnostic_views(r@) =~= seq![entry]);
    r
}

impl Kernel {
    /// A kernel with the text of its intents.
    pub fn new(bootstrap_source: String) -> (r: Self)
        ensures
            r.bootstrap_source == bootstrap_source,
    {
        Kernel { bootstrap_source }
    }

    /// Analyses a document: runs the derives and the rules of the policy, and
    /// collects the findings.
    pub fn analyse(&self, source: Source) -> (r: Result<AnalysisResult, Vec<Diagnostic>>)
        ensures
            analysed(source, r),
    {
        match source {
            Source::ParseFailed(message) => Err(
                only(self.parse_error_to_diagnostic(message.as_str())),
            ),
            Source::LowerFailed(message) => Err(
                only(self.lower_error_to_diagnostic(message.as_str())),
            ),
            Source::ProjectFailed(list) => Err(list),
            Source::Ready { model, derives, rules, bindings, document } => {
                let mut model = model;
                let mut engine = RuleEngine::new();
                let run = engine.run_with_policy(
                    &mut model,
                    derives.as_slice(),
                    &rules,
                    bindings.as_slice(),
                );
                match run {
                    Ok(PolicyExecutionResult { outcome, trace }) => {
                        let failures = self.collect_failures(&model);
                        Ok(AnalysisResult { model, failures, outcome, trace, document })
                    },
                    Err(e) => Err(only(self.rule_error_to_diagnostic(&e))),
                }
            },
        }
    }

    /// How grave a finding is.
    fn severity(&self, model: &Model, id: EntityId) -> (r: AssertSeverity)
        ensures
            r == severity_of(model@, id),
    {
        if self.has_severity(model, id, "core:Warning") {
            AssertSeverity::Warning
        } else if self.has_severity(model, id, "core:Info") {
            AssertSeverity::Info
        } else {
            AssertSeverity::Error
        }
    }

    fn has_severity(&self, model: &Model, id: EntityId, severity: &str) -> (r: bool)
        ensures
            r == has_severity(model@, id, severity@),
    {
        match (model.resolve("core:severity"), model.resolve(severity)) {
            (Some(predicate), Some(value)) => model.has(id, predicate, &Term::Entity(value)),
            _ => false,
        }
    }

    /// The findings in a graph, in order.
    pub fn collect_failures(&self, model: &Model) -> (r: Vec<AssertFailure>)
        ensures
            failure_views(r@) == failures_in(model@),
    {
        let mut failures: Vec<AssertFailure> = Vec::new();
        assert(failure_views(failures@) =~= seq![]);
        if let Some(kind) = model.resolve("core:AssertFailure") {
            let count: usize = model.entity_count();
            for i in 0..count
                invariant
                    count == model@.names.len(),
                    failure_views(failures@) == failures_among(model@, kind, i as nat),
            {
                let id = entity_id(i);
                if model.has_type(id, kind) {
                    let ghost before = failure_views(failures@);
                    let assertion = match model.get_literal(id, "core:assertion") {
                        Some(s) => s,
                        None => String::new(),
                    };
                    let failure = AssertFailure {
                        entity: id,
                        assertion,
                        severity: self.severity(model, id),
                        subject: model.get_linked(id, "core:subject"),
                        area: model.get_linked(id, "core:area"),
                        message: model.get_literal(id, "core:message"),
                    };
                    assert(failure@.assertion =~= failure_at(model@, id).assertion);
                    assert(failure@ == failure_at(model@, id));
                    failures.push(failure);
                    assert(failure_views(failures@) =~= before.push(failure_at(model@, id)));
                }
            }
        }
        failures
    }

    /// What is reported of intents that could not be parsed.
    fn parse_error_to_diagnostic(&self, message: &str) -> (r: Diagnostic)
        ensures
            r@ == diagnostics::error_view("Parse error: "@ + message@),
    {
        error_diagnostic(text::cat2("Parse error: ", message))
    }

    /// What is reported of intents that could not be brought into the graph.
    fn lower_error_to_diagnostic(&self, message: &str) -> (r: Diagnostic)
        ensures
            r@ == diagnostics::error_view("Lower error: "@ + message@),
    {
        error_diagnostic(text::cat2("Lower error: ", message))
    }

    /// What is reported of a rule or derive that could not be executed.
    fn rule_error_to_diagnostic(&self, err: &RuleError) -> (r: Diagnostic)
        ensures
            r@ == diagnostics::error_view("Rule error: "@ + err.message@),
    {
        error_diagnostic(text::cat2("Rule error: ", err.message.as_str()))
    }
}

} // verus!
