//! What the resources of a vendor stand for.

use vstd::prelude::*;

use crate::diagnostics::{self, error_diagnostic, Diagnostic};
use crate::guidance;
use crate::kernel::paths;
use crate::kernel::query_laws;
use crate::kernel::traversal;
use crate::model::laws;
use crate::model::search::{self, Axis, Query, StepView};
use crate::model::view::{Change, Fact, ModelView, ValueView};
use crate::model::{self, EntityId, Model, ModelError, Term};
use crate::shown::{self, quote, show_field, show_record};
use crate::text;

verus! {

/// Who runs the infrastructure.
#[derive(Debug, Clone, Copy, PartialEq, Eq, Structural)]
pub enum Vendor {
    Aws,
}

/// How the infrastructure is described.
#[derive(Debug, Clone, Copy, PartialEq, Eq, Structural)]
pub enum Method {
    CloudFormation,
}

// ---------------------------------------------------------------------------
// Abstract types
// ---------------------------------------------------------------------------

/// The abstract type of an AWS resource: whether it runs, stores or moves data.
pub open spec fn abstract_type(aws_type: Seq<char>) -> Option<Seq<char>> {
    if aws_type == "AWS::EC2::Instance"@ || aws_type == "AWS::Lambda::Function"@ {
        Some("wa2:Run"@)
    } else if aws_type == "AWS::S3::Bucket"@ || aws_type == "AWS::EC2::Volume"@ || aws_type
        == "AWS::EFS::FileSystem"@ {
        Some("wa2:Store"@)
    } else if aws_type == "AWS::SQS::Queue"@ || aws_type == "AWS::Kinesis::Stream"@ {
        Some("wa2:Move"@)
    } else {
        None
    }
}

/// The abstract type of an AWS resource.
fn abstract_name(aws_type: &str) -> (r: Option<&'static str>)
    ensures
        search::name_view(r) == abstract_type(aws_type@),
{
    if text::same_text(aws_type, "AWS::EC2::Instance") || text::same_text(
        aws_type,
        "AWS::Lambda::Function",
    ) {
        Some("wa2:Run")
    } else if text::same_text(aws_type, "AWS::S3::Bucket") || text::same_text(
        aws_type,
        "AWS::EC2::Volume",
    ) || text::same_text(aws_type, "AWS::EFS::FileSystem") {
        Some("wa2:Store")
    } else if text::same_text(aws_type, "AWS::SQS::Queue") || text::same_text(
        aws_type,
        "AWS::Kinesis::Stream",
    ) {
        Some("wa2:Move")
    } else {
        None
    }
}

/// The graph in which a resource has its abstract type, where it has one.
pub open spec fn typed(m: ModelView, entity: EntityId) -> Change<()> {
    match m.literal(entity, "aws:type"@) {
        Some(aws_type) => match abstract_type(aws_type) {
            Some(kind) => m.apply_to(entity, "wa2:type"@, kind),
            None => (m, Ok(())),
        },
        None => (m, Ok(())),
    }
}

/// Gives a resource its abstract type, where it has one.
pub fn derive_wa2_type(model: &mut Model, entity: EntityId) -> (r: Result<(), ModelError>)
    ensures
        (final(model)@, model::outcome_view(r)) == typed(old(model)@, entity),
{
    match model.get_literal(entity, "aws:type") {
        Some(aws_type) => match abstract_name(aws_type.as_str()) {
            Some(kind) => model.apply_to(entity, "wa2:type", kind),
            None => Ok(()),
        },
        None => Ok(()),
    }
}

// ---------------------------------------------------------------------------
// Evidence
// ---------------------------------------------------------------------------

/// The search for the rules of a replication that are enabled.
pub open spec fn replication_steps() -> Seq<StepView> {
    seq![
        StepView {
            axis: Axis::Follow,
            name: Some("aws:ReplicationConfiguration"@),
            filters: seq![],
        },
        StepView { axis: Axis::Follow, name: Some("aws:Rules"@), filters: seq![] },
        StepView {
            axis: Axis::Child,
            name: None,
            filters: seq![("aws:Status"@, ValueView::Literal("Enabled"@))],
        },
    ]
}

/// Whether a resource is replicated.
pub open spec fn is_replicated(m: ModelView, entity: EntityId) -> bool {
    search::search_from(m, seq![entity], replication_steps()).len() > 0
}

/// The graph in which a resource contains evidence of resilience.
pub open spec fn with_evidence(m: ModelView, entity: EntityId) -> Change<()> {
    let evidence = m.next_id();
    match m.with_blank().apply_to(evidence, "wa2:type"@, "wa2:Evidence"@) {
        (m1, Ok(_)) => match m1.apply_to(evidence, "wa2:value"@, "\"DataResiliance\""@) {
            (m2, Ok(_)) => m2.apply(entity, "wa2:contains"@, ValueView::Entity(evidence)),
            (m2, Err(e)) => (m2, Err(e)),
        },
        (m1, Err(e)) => (m1, Err(e)),
    }
}

/// The graph in which what the configuration of a resource shows is noted.
pub open spec fn noted(m: ModelView, entity: EntityId) -> Change<()> {
    if is_replicated(m, entity) {
        with_evidence(m, entity)
    } else {
        (m, Ok(()))
    }
}

/// Notes what the configuration of a resource shows: a resource that is
/// replicated contains evidence of resilience.
pub fn derive_evidence(model: &mut Model, entity: EntityId) -> (r: Result<(), ModelError>)
    ensures
        (final(model)@, model::outcome_view(r)) == if is_replicated(old(model)@, entity) {
            with_evidence(old(model)@, entity)
        } else {
            (old(model)@, Ok(()))
        },
        (final(model)@, model::outcome_view(r)) == noted(old(model)@, entity),
{
    let query = Query::follow("aws:ReplicationConfiguration").then_follow("aws:Rules").then_step(
        Axis::Child,
        None,
    ).filter("aws:Status", Term::Literal("Enabled".to_owned()));
    assert(query@ =~= replication_steps()) by {
        assert(query@[2].filters =~= replication_steps()[2].filters);
    }
    let start: Vec<EntityId> = vec![entity];
    assert(start@ =~= seq![entity]);
    if model.query_from(start, &query).len() > 0 {
        let evidence = model.blank();
        model.apply_to(evidence, "wa2:type", "wa2:Evidence")?;
        model.apply_to(evidence, "wa2:value", "\"DataResiliance\"")?;
        model.apply_entity(entity, "wa2:contains", evidence)?;
    }
    Ok(())
}

// ---------------------------------------------------------------------------
// Types and templates
// ---------------------------------------------------------------------------

/// Statements, each with a named subject.
pub type Statements = Seq<(Seq<char>, Seq<char>, Seq<char>)>;

/// The graph after some statements, up to the first that fails.
pub open spec fn all_stated(m: ModelView, table: Statements) -> Change<()>
    decreases table.len(),
{
    if table.len() == 0 {
        (m, Ok(()))
    } else {
        let last = table.last();
        match all_stated(m, table.drop_last()) {
            (m1, Ok(_)) => m1.apply_named(last.0, last.1, last.2),
            (m1, Err(e)) => (m1, Err(e)),
        }
    }
}

/// The view of some statements.
pub open spec fn statement_views(table: Seq<(&str, &str, &str)>) -> Statements {
    Seq::new(table.len(), |i: int| (table[i].0@, table[i].1@, table[i].2@))
}

/// A statement that failed is followed by none.
proof fn lemma_stated_prefix(m: ModelView, table: Statements, n: int)
    requires
        0 <= n <= table.len(),
        all_stated(m, table.take(n)).1 is Err,
    ensures
        all_stated(m, table) == all_stated(m, table.take(n)),
    decreases table.len(),
{
    if n < table.len() {
        assert(table.drop_last().take(n) =~= table.take(n));
        lemma_stated_prefix(m, table.drop_last(), n);
    } else {
        assert(table.take(n) =~= table);
    }
}

/// Makes some statements, up to the first that fails.
fn state_all(model: &mut Model, table: &Vec<(&str, &str, &str)>) -> (r: Result<(), ModelError>)
    ensures
        (final(model)@, model::outcome_view(r)) == all_stated(
            old(model)@,
            statement_views(table@),
        ),
{
    let ghost start = model@;
    let ghost all = statement_views(table@);
    for i in 0..table.len()
        invariant
            start == old(model)@,
            all == statement_views(table@),
            (model@, Ok::<(), Seq<char>>(())) == all_stated(start, all.take(i as int)),
    {
        assert(all.take(i + 1).drop_last() =~= all.take(i as int));
        assert(all.take(i + 1).last() == all[i as int]);
        let (subject, predicate, object) = table[i];
        match model.apply(subject, predicate, object) {
            Ok(_) => {},
            Err(e) => {
                proof {
                    lemma_stated_prefix(start, all, i + 1);
                }
                return Err(e);
            },
        }
    }
    assert(all.take(all.len() as int) =~= all);
    Ok(())
}

/// What is said of the architectural types.
pub open spec fn core_statements() -> Statements {
    seq![
        ("core:Node"@, "wa2:type"@, "wa2:Type"@),
        ("core:Store"@, "wa2:type"@, "wa2:Type"@),
        ("core:Store"@, "wa2:subTypeOf"@, "core:Node"@),
        ("core:Run"@, "wa2:type"@, "wa2:Type"@),
        ("core:Run"@, "wa2:subTypeOf"@, "core:Node"@),
        ("core:Move"@, "wa2:type"@, "wa2:Type"@),
        ("core:Move"@, "wa2:subTypeOf"@, "core:Node"@),
        ("core:Workload"@, "wa2:type"@, "wa2:Type"@),
        ("core:nodes"@, "wa2:type"@, "wa2:Predicate"@),
        ("core:nodes"@, "wa2:domain"@, "core:Workload"@),
        ("core:nodes"@, "wa2:range"@, "core:Node"@),
        ("core:Evidence"@, "wa2:type"@, "wa2:Type"@),
        ("core:value"@, "wa2:type"@, "wa2:Predicate"@),
        ("core:value"@, "wa2:domain"@, "core:Evidence"@),
        ("core:source"@, "wa2:type"@, "wa2:Predicate"@),
        ("core:source"@, "wa2:domain"@, "core:Node"@),
        ("core:source"@, "wa2:range"@, "aws:cfn:Resource"@),
    ]
}

/// The graph after a namespace is registered and some statements are made.
pub open spec fn stated_in(m: ModelView, namespace: Seq<char>, table: Statements) -> Change<()> {
    match m.ensure_namespace(namespace) {
        (m1, Ok(_)) => all_stated(m1, table),
        (m1, Err(e)) => (m1, Err(e)),
    }
}

/// States the architectural types.
pub fn ensure_core_types(model: &mut Model) -> (r: Result<(), ModelError>)
    ensures
        (final(model)@, model::outcome_view(r)) == stated_in(
            old(model)@,
            "core"@,
            core_statements(),
        ),
{
    model.ensure_namespace("core")?;
    let table: Vec<(&str, &str, &str)> = vec![
        ("core:Node", "wa2:type", "wa2:Type"),
        ("core:Store", "wa2:type", "wa2:Type"),
        ("core:Store", "wa2:subTypeOf", "core:Node"),
        ("core:Run", "wa2:type", "wa2:Type"),
        ("core:Run", "wa2:subTypeOf", "core:Node"),
        ("core:Move", "wa2:type", "wa2:Type"),
        ("core:Move", "wa2:subTypeOf", "core:Node"),
        ("core:Workload", "wa2:type", "wa2:Type"),
        ("core:nodes", "wa2:type", "wa2:Predicate"),
        ("core:nodes", "wa2:domain", "core:Workload"),
        ("core:nodes", "wa2:range", "core:Node"),
        ("core:Evidence", "wa2:type", "wa2:Type"),
        ("core:value", "wa2:type", "wa2:Predicate"),
        ("core:value", "wa2:domain", "core:Evidence"),
        ("core:source", "wa2:type", "wa2:Predicate"),
        ("core:source", "wa2:domain", "core:Node"),
        ("core:source", "wa2:range", "aws:cfn:Resource"),
    ];
    assert(statement_views(table@) =~= core_statements());
    state_all(model, &table)
}

/// Registers the namespace of AWS.
pub fn ensure_aws_types(model: &mut Model) -> (r: Result<(), ModelError>)
    ensures
        (final(model)@, model::outcome_view(r)) == old(model)@.ensure_namespace("aws"@),
{
    model.ensure_namespace("aws")
}

/// The graph after some entities were asked for, up to the first name that is
/// refused.
pub open spec fn all_ensured(m: ModelView, names: Seq<Seq<char>>) -> Change<()>
    decreases names.len(),
{
    if names.len() == 0 {
        (m, Ok(()))
    } else {
        match all_ensured(m, names.drop_last()) {
            (m1, Ok(_)) => match m1.ensure_entity(names.last()) {
                (m2, Ok(_)) => (m2, Ok(())),
                (m2, Err(e)) => (m2, Err(e)),
            },
            (m1, Err(e)) => (m1, Err(e)),
        }
    }
}

/// A name that was refused is followed by none.
proof fn lemma_ensured_prefix(m: ModelView, names: Seq<Seq<char>>, n: int)
    requires
        0 <= n <= names.len(),
        all_ensured(m, names.take(n)).1 is Err,
    ensures
        all_ensured(m, names) == all_ensured(m, names.take(n)),
    decreases names.len(),
{
    if n < names.len() {
        assert(names.drop_last().take(n) =~= names.take(n));
        lemma_ensured_prefix(m, names.drop_last(), n);
    } else {
        assert(names.take(n) =~= names);
    }
}

/// Asks for some entities, up to the first name that is refused.
fn ensure_all(model: &mut Model, names: &Vec<String>) -> (r: Result<(), ModelError>)
    ensures
        (final(model)@, model::outcome_view(r)) == all_ensured(old(model)@, text::views(names@)),
{
    let ghost start = model@;
    let ghost all = text::views(names@);
    for i in 0..names.len()
        invariant
            start == old(model)@,
            all == text::views(names@),
            (model@, Ok::<(), Seq<char>>(())) == all_ensured(start, all.take(i as int)),
    {
        assert(all.take(i + 1).drop_last() =~= all.take(i as int));
        assert(all.take(i + 1).last() == all[i as int]);
        match model.ensure_entity(names[i].as_str()) {
            Ok(_) => {},
            Err(e) => {
                proof {
                    lemma_ensured_prefix(start, all, i + 1);
                }
                return Err(e);
            },
        }
    }
    assert(all.take(all.len() as int) =~= all);
    Ok(())
}

/// The statements that give some names of CloudFormation a type.
pub open spec fn cfn_typed(names: Seq<Seq<char>>, kind: Seq<char>) -> Statements {
    Seq::new(names.len(), |i: int| ("aws:cfn:"@ + names[i], "wa2:type"@, kind))
}

/// Gives some names of CloudFormation a type, up to the first that fails.
fn type_all(model: &mut Model, names: &Vec<String>, kind: &str) -> (r: Result<(), ModelError>)
    ensures
        (final(model)@, model::outcome_view(r)) == all_stated(
            old(model)@,
            cfn_typed(text::views(names@), kind@),
        ),
{
    let ghost start = model@;
    let ghost all = cfn_typed(text::views(names@), kind@);
    for i in 0..names.len()
        invariant
            start == old(model)@,
            all == cfn_typed(text::views(names@), kind@),
            (model@, Ok::<(), Seq<char>>(())) == all_stated(start, all.take(i as int)),
    {
        assert(all.take(i + 1).drop_last() =~= all.take(i as int));
        assert(all.take(i + 1).last() == all[i as int]);
        let name = text::cat2("aws:cfn:", names[i].as_str());
        match model.apply(name.as_str(), "wa2:type", kind) {
            Ok(_) => {},
            Err(e) => {
                proof {
                    lemma_stated_prefix(start, all, i + 1);
                }
                return Err(e);
            },
        }
    }
    assert(all.take(all.len() as int) =~= all);
    Ok(())
}

/// The names of CloudFormation that are entities.
pub open spec fn cfn_names() -> Seq<Seq<char>> {
    seq![
        "aws:cfn:Output"@,
        "aws:cfn:Resource"@,
        "aws:cfn:outputs"@,
        "aws:cfn:resources"@,
        "aws:cfn:value"@,
        "aws:cfn:exportName"@,
        "aws:cfn:SubVarRef"@,
        "aws:cfn:varRef"@,
    ]
}

/// The names of CloudFormation that are types.
pub open spec fn cfn_types() -> Seq<Seq<char>> {
    seq!["Template"@, "Parameter"@, "PseudoParameter"@, "Resource"@]
}

/// The names of CloudFormation that are predicates.
pub open spec fn cfn_predicates() -> Seq<Seq<char>> {
    seq![
        "target"@,
        "attribute"@,
        "template"@,
        "parameters"@,
        "pseudoParameters"@,
        "type"@,
        "default"@,
        "description"@,
        "delimiter"@,
        "condition"@,
        "conditionName"@,
    ]
}

/// The graph in which the types and predicates of CloudFormation stand, and its
/// intrinsic functions are types.
pub open spec fn with_cfn_types(m: ModelView, intrinsics: Seq<Seq<char>>) -> Change<()> {
    match m.ensure_namespace("aws"@) {
        (m1, Ok(_)) => match m1.ensure_namespace("aws:cfn"@) {
            (m2, Ok(_)) => match all_ensured(m2, cfn_names()) {
                (m3, Ok(_)) => match all_stated(m3, cfn_typed(cfn_types(), "wa2:Type"@)) {
                    (m4, Ok(_)) => match all_stated(m4, cfn_typed(intrinsics, "wa2:Type"@)) {
                        (m5, Ok(_)) => all_stated(
                            m5,
                            cfn_typed(cfn_predicates(), "wa2:Predicate"@),
                        ),
                        (m5, Err(e)) => (m5, Err(e)),
                    },
                    (m4, Err(e)) => (m4, Err(e)),
                },
                (m3, Err(e)) => (m3, Err(e)),
            },
            (m2, Err(e)) => (m2, Err(e)),
        },
        (m1, Err(e)) => (m1, Err(e)),
    }
}

/// States the types and predicates of CloudFormation, given the names of its
/// intrinsic functions.
pub fn ensure_cfn_types(model: &mut Model, intrinsics: &Vec<String>) -> (r: Result<(), ModelError>)
    ensures
        (final(model)@, model::outcome_view(r)) == with_cfn_types(
            old(model)@,
            text::views(intrinsics@),
        ),
{
    model.ensure_namespace("aws")?;
    model.ensure_namespace("aws:cfn")?;
    let names: Vec<String> = vec![
        "aws:cfn:Output".to_owned(),
        "aws:cfn:Resource".to_owned(),
        "aws:cfn:outputs".to_owned(),
        "aws:cfn:resources".to_owned(),
        "aws:cfn:value".to_owned(),
        "aws:cfn:exportName".to_owned(),
        "aws:cfn:SubVarRef".to_owned(),
        "aws:cfn:varRef".to_owned(),
    ];
    assert(text::views(names@) =~= cfn_names());
    ensure_all(model, &names)?;
    let types: Vec<String> = vec![
        "Template".to_owned(),
        "Parameter".to_owned(),
        "PseudoParameter".to_owned(),
        "Resource".to_owned(),
    ];
    assert(text::views(types@) =~= cfn_types());
    type_all(model, &types, "wa2:Type")?;
    type_all(model, intrinsics, "wa2:Type")?;
    let predicates: Vec<String> = vec![
        "target".to_owned(),
        "attribute".to_owned(),
        "template".to_owned(),
        "parameters".to_owned(),
        "pseudoParameters".to_owned(),
        "type".to_owned(),
        "default".to_owned(),
        "description".to_owned(),
        "delimiter".to_owned(),
        "condition".to_owned(),
        "conditionName".to_owned(),
    ];
    assert(text::views(predicates@) =~= cfn_predicates());
    type_all(model, &predicates, "wa2:Predicate")
}

/// The graph in which a template is the source of the workload, and the workload
/// is the root.
pub open spec fn with_template(m: ModelView) -> Change<EntityId> {
    let template = m.next_id();
    match m.with_blank().apply_to(template, "wa2:type"@, "cfn:Template"@) {
        (m1, Ok(_)) => match m1.ensure_entity("core:workload"@) {
            (m2, Ok(workload)) => match m2.apply_to(workload, "wa2:type"@, "core:Workload"@) {
                (m3, Ok(_)) => match m3.apply(
                    workload,
                    "core:source"@,
                    ValueView::Entity(template),
                ) {
                    (m4, Ok(_)) => (ModelView { root: Some(workload), ..m4 }, Ok(template)),
                    (m4, Err(e)) => (m4, Err(e)),
                },
                (m3, Err(e)) => (m3, Err(e)),
            },
            (m2, Err(e)) => (m2, Err(e)),
        },
        (m1, Err(e)) => (m1, Err(e)),
    }
}

/// Adds a template: it is the source of the workload, which is the root.
pub fn add_template(model: &mut Model) -> (r: Result<EntityId, ModelError>)
    ensures
        (final(model)@, model::outcome_view(r)) == with_template(old(model)@),
{
    let template = model.blank();
    model.apply_to(template, "wa2:type", "cfn:Template")?;
    let workload = model.ensure_entity("core:workload")?;
    model.apply_to(workload, "wa2:type", "core:Workload")?;
    model.apply_entity(workload, "core:source", template)?;
    model.set_root(workload);
    Ok(template)
}

/// An error of a graph as messages show it, given its message in quotes.
pub open spec fn error_form(quoted: Seq<char>) -> Seq<char> {
    shown::record_form("ModelError"@, seq![shown::field_form("message"@, quoted)])
}

/// An error of a graph as messages show it, given its message in quotes.
pub fn show_error(quoted: &str) -> (r: String)
    ensures
        r@ == error_form(quoted@),
{
    let fields: Vec<String> = vec![show_field("message", quoted)];
    assert(text::views(fields@) =~= seq![shown::field_form("message"@, quoted@)]);
    show_record("ModelError", &fields)
}

/// What is reported where a document cannot be brought into a graph.
pub fn model_error_to_diags(err: &ModelError) -> (r: Vec<Diagnostic>)
    ensures
        r@.len() == 1,
        r@[0]@ == diagnostics::error_view(
            "Model error: "@ + error_form(shown::in_quotes(err.message@)),
        ),
{
    let form = show_error(quote(err.message.as_str()).as_str());
    vec![error_diagnostic(text::cat2("Model error: ", form.as_str()))]
}

// ---------------------------------------------------------------------------
// Laws
// ---------------------------------------------------------------------------

/// A resource whose abstract type could be noted has it.
pub proof fn lemma_resource_gets_type(m: ModelView, entity: EntityId)
    requires
        m.literal(entity, "aws:type"@) is Some,
        abstract_type(m.literal(entity, "aws:type"@)->0) is Some,
        typed(m, entity).1 is Ok,
    ensures
        ({
            let kind = abstract_type(m.literal(entity, "aws:type"@)->0)->0;
            let after = typed(m, entity).0;
            after.resolve(kind) is Some && after.has_type(entity, after.resolve(kind)->0)
        }),
{
    let kind = abstract_type(m.literal(entity, "aws:type"@)->0)->0;
    reveal_strlit("wa2:Run");
    reveal_strlit("wa2:Store");
    reveal_strlit("wa2:Move");
    laws::lemma_apply_to_then_has(m, entity, "wa2:type"@, kind);
}

/// What is noted of a resource leaves what was there.
pub proof fn lemma_derivation_extends(m: ModelView, entity: EntityId)
    ensures
        laws::extends(m, typed(m, entity).0),
        laws::extends(m, with_evidence(m, entity).0),
{
    let evidence = m.next_id();
    let m0 = m.with_blank();
    let first = m0.apply_to(evidence, "wa2:type"@, "wa2:Evidence"@);
    let second = first.0.apply_to(evidence, "wa2:value"@, "\"DataResiliance\""@);
    let third = second.0.apply(entity, "wa2:contains"@, ValueView::Entity(evidence));
    laws::lemma_extends_reflexive(m);
    laws::lemma_blank_extends(m);
    laws::lemma_apply_to_extends(m0, evidence, "wa2:type"@, "wa2:Evidence"@);
    laws::lemma_apply_to_extends(first.0, evidence, "wa2:value"@, "\"DataResiliance\""@);
    laws::lemma_apply_then_has(
        second.0,
        entity,
        "wa2:contains"@,
        ValueView::Entity(evidence),
    );
    laws::lemma_extends_transitive(m, m0, first.0);
    laws::lemma_extends_transitive(m, first.0, second.0);
    laws::lemma_extends_transitive(m, second.0, third.0);
    if let Some(aws_type) = m.literal(entity, "aws:type"@) {
        if let Some(kind) = abstract_type(aws_type) {
            laws::lemma_apply_to_extends(m, entity, "wa2:type"@, kind);
        }
    }
}

/// A resource of which resilience was noted shows it.
pub proof fn lemma_evidence_is_found(m: ModelView, entity: EntityId)
    requires
        with_evidence(m, entity).1 is Ok,
    ensures
        guidance::is_evident(with_evidence(m, entity).0, entity, "DataResiliance"@),
{
    let evidence = m.next_id();
    let first = m.with_blank().apply_to(evidence, "wa2:type"@, "wa2:Evidence"@);
    let second = first.0.apply_to(evidence, "wa2:value"@, "\"DataResiliance\""@);
    let third = second.0.apply(entity, "wa2:contains"@, ValueView::Entity(evidence));
    let after = third.0;
    let value = ValueView::Literal("DataResiliance"@);
    assert(text::is_quoted("\"DataResiliance\""@) && text::unquoted("\"DataResiliance\""@)
        == "DataResiliance"@ && !text::is_quoted("wa2:Evidence"@)) by {
        reveal_strlit("\"DataResiliance\"");
        reveal_strlit("DataResiliance");
        reveal_strlit("wa2:Evidence");
        assert(text::unquoted("\"DataResiliance\""@) =~= "DataResiliance"@);
    }
    laws::lemma_apply_to_then_has(m.with_blank(), evidence, "wa2:type"@, "wa2:Evidence"@);
    laws::lemma_apply_then_has(first.0, evidence, "wa2:value"@, value);
    laws::lemma_apply_then_has(
        second.0,
        entity,
        "wa2:contains"@,
        ValueView::Entity(evidence),
    );
    let kind = first.0.resolve("wa2:Evidence"@)->0;
    let held = second.0.resolve("wa2:value"@)->0;
    laws::lemma_extends_transitive(first.0, second.0, after);
    laws::lemma_resolve_stable(first.0, after, "wa2:Evidence"@);
    laws::lemma_has_type_stable(first.0, after, evidence, kind);
    laws::lemma_resolve_stable(second.0, after, "wa2:value"@);
    laws::lemma_has_stable(second.0, after, evidence, held, value);
    laws::lemma_objects(after, evidence, held, value);
    let step = guidance::evidence_steps("DataResiliance"@)[0];
    assert(search::is_wanted(after, step.name, evidence));
    assert(search::meets(after, step.filters, evidence));
    laws::lemma_children(after, entity, evidence);
    traversal::lemma_child_is_below(after, entity, evidence);
    let below = search::leads_to(after, step, entity);
    traversal::lemma_passing(
        paths::descendants(after, entity),
        |id: EntityId| search::is_wanted(after, step.name, id),
    );
    assert(below.contains(evidence));
    let start = seq![entity];
    let lead = |n: EntityId| search::leads_to(after, step, n);
    assert(start.drop_last() =~= seq![]);
    assert(paths::gathered(start.drop_last(), lead) =~= seq![]);
    assert(paths::gathered(start, lead) =~= below);
    let found = search::search_step(after, start, step);
    traversal::lemma_distinct(
        paths::gathered(start, lead),
        |id: EntityId| search::meets(after, step.filters, id),
    );
    assert(found.contains(evidence));
    let steps = guidance::evidence_steps("DataResiliance"@);
    assert(steps.drop_last() =~= seq![]);
    assert(search::search_from(after, start, steps.drop_last()) =~= start);
    assert(search::search_from(after, start, steps) =~= found);
}

/// A resource whose data is critical and that is replicated is not asked for a
/// backup, once that is noted.
pub proof fn lemma_replicated_needs_no_backup(m: ModelView, entity: EntityId, i: int)
    requires
        is_replicated(m, entity),
        with_evidence(m, entity).1 is Ok,
        0 <= i < guidance::guides_for(with_evidence(m, entity).0, entity).len(),
    ensures
        guidance::guides_for(with_evidence(m, entity).0, entity)[i].focus
            != guidance::FocusTaxonomy::DataResiliance,
{
    lemma_evidence_is_found(m, entity);
}

/// A resource is replicated exactly where one of its replication configurations has
/// rules of which one is enabled.
pub proof fn lemma_replicated(m: ModelView, entity: EntityId)
    ensures
        is_replicated(m, entity) <==> exists|config: EntityId, rules: EntityId, rule: EntityId|
            {
                &&& #[trigger] query_laws::is_linked(
                    m,
                    entity,
                    "aws:ReplicationConfiguration"@,
                    config,
                )
                &&& #[trigger] query_laws::is_linked(m, config, "aws:Rules"@, rules)
                &&& #[trigger] query_laws::contains_node(m, rules, rule)
                &&& query_laws::has_named_text(m, rule, "aws:Status"@, "Enabled"@)
            },
{
    let steps = replication_steps();
    let start = seq![entity];
    let first = search::search_step(m, start, steps[0]);
    let second = search::search_step(m, first, steps[1]);
    let third = search::search_step(m, second, steps[2]);
    assert(steps.drop_last().drop_last().drop_last() =~= seq![]);
    assert(steps.drop_last().drop_last().last() == steps[0]);
    assert(steps.drop_last().last() == steps[1]);
    reveal_with_fuel(search::search_from, 4);
    assert(search::search_from(m, start, steps) =~= third);
    assert forall|x: EntityId| first.contains(x) <==> #[trigger] query_laws::is_linked(
        m,
        entity,
        "aws:ReplicationConfiguration"@,
        x,
    ) by {
        search::lemma_search_step(m, start, steps[0], x);
        search::lemma_leads_to(m, steps[0], entity, x);
        assert(start.contains(entity)) by {
            assert(start[0] == entity);
        }
    }
    assert forall|n: EntityId, x: EntityId| search::leads_to(m, steps[1], n).contains(x)
        <==> #[trigger] query_laws::is_linked(m, n, "aws:Rules"@, x) by {
        search::lemma_leads_to(m, steps[1], n, x);
    }
    assert forall|n: EntityId, x: EntityId| search::leads_to(m, steps[2], n).contains(x)
        <==> #[trigger] query_laws::contains_node(m, n, x) by {
        search::lemma_leads_to(m, steps[2], n, x);
    }
    assert forall|x: EntityId| search::meets(m, steps[2].filters, x)
        <==> #[trigger] query_laws::has_named_text(m, x, "aws:Status"@, "Enabled"@) by {
        search::lemma_meets_each(m, steps[2].filters, x);
        assert(steps[2].filters[0] == ("aws:Status"@, ValueView::Literal("Enabled"@)));
    }
    if third.len() > 0 {
        let rule = third[0];
        assert(third.contains(rule));
        search::lemma_search_step(m, second, steps[2], rule);
        let rules = choose|n: EntityId|
            second.contains(n) && #[trigger] search::leads_to(m, steps[2], n).contains(rule);
        assert(query_laws::contains_node(m, rules, rule));
        assert(query_laws::has_named_text(m, rule, "aws:Status"@, "Enabled"@));
        search::lemma_search_step(m, first, steps[1], rules);
        let config = choose|n: EntityId|
            first.contains(n) && #[trigger] search::leads_to(m, steps[1], n).contains(rules);
        assert(query_laws::is_linked(m, config, "aws:Rules"@, rules));
        assert(query_laws::is_linked(m, entity, "aws:ReplicationConfiguration"@, config));
    }
    assert forall|config: EntityId, rules: EntityId, rule: EntityId|
        {
            &&& #[trigger] query_laws::is_linked(
                m,
                entity,
                "aws:ReplicationConfiguration"@,
                config,
            )
            &&& #[trigger] query_laws::is_linked(m, config, "aws:Rules"@, rules)
            &&& #[trigger] query_laws::contains_node(m, rules, rule)
            &&& query_laws::has_named_text(m, rule, "aws:Status"@, "Enabled"@)
        } implies third.len() > 0 by {
        assert(first.contains(config));
        search::lemma_search_step(m, first, steps[1], rules);
        assert(search::leads_to(m, steps[1], config).contains(rules));
        search::lemma_search_step(m, second, steps[2], rule);
        assert(search::leads_to(m, steps[2], rules).contains(rule));
        assert(search::meets(m, steps[2].filters, rule));
        assert(third.contains(rule));
    }
}

/// Servers and functions run; buckets, volumes and file systems store; queues and
/// streams move.
pub proof fn lemma_abstract_types(aws_type: Seq<char>)
    ensures
        abstract_type(aws_type) == Some("wa2:Run"@) <==> seq![
            "AWS::EC2::Instance"@,
            "AWS::Lambda::Function"@,
        ].contains(aws_type),
        abstract_type(aws_type) == Some("wa2:Store"@) <==> seq![
            "AWS::S3::Bucket"@,
            "AWS::EC2::Volume"@,
            "AWS::EFS::FileSystem"@,
        ].contains(aws_type),
        abstract_type(aws_type) == Some("wa2:Move"@) <==> seq![
            "AWS::SQS::Queue"@,
            "AWS::Kinesis::Stream"@,
        ].contains(aws_type),
{
    let runs = seq!["AWS::EC2::Instance"@, "AWS::Lambda::Function"@];
    let stores = seq!["AWS::S3::Bucket"@, "AWS::EC2::Volume"@, "AWS::EFS::FileSystem"@];
    let moves = seq!["AWS::SQS::Queue"@, "AWS::Kinesis::Stream"@];
    assert(runs[0] == "AWS::EC2::Instance"@ && runs[1] == "AWS::Lambda::Function"@);
    assert(stores[0] == "AWS::S3::Bucket"@ && stores[1] == "AWS::EC2::Volume"@ && stores[2]
        == "AWS::EFS::FileSystem"@);
    assert(moves[0] == "AWS::SQS::Queue"@ && moves[1] == "AWS::Kinesis::Stream"@);
    reveal_strlit("wa2:Run");
    reveal_strlit("wa2:Store");
    reveal_strlit("wa2:Move");
    assert("wa2:Run"@.len() == 7 && "wa2:Store"@.len() == 9 && "wa2:Move"@.len() == 8);
    reveal_strlit("AWS::EC2::Instance");
    reveal_strlit("AWS::Lambda::Function");
    reveal_strlit("AWS::S3::Bucket");
    reveal_strlit("AWS::EC2::Volume");
    reveal_strlit("AWS::EFS::FileSystem");
    reveal_strlit("AWS::SQS::Queue");
    reveal_strlit("AWS::Kinesis::Stream");
    assert("AWS::EC2::Instance"@[5] == 'E' && "AWS::EC2::Instance"@[10] == 'I');
    assert("AWS::Lambda::Function"@[5] == 'L');
    assert("AWS::S3::Bucket"@[5] == 'S' && "AWS::S3::Bucket"@[6] == '3');
    assert("AWS::EC2::Volume"@[10] == 'V' && "AWS::EC2::Volume"@[5] == 'E');
    assert("AWS::EFS::FileSystem"@[5] == 'E' && "AWS::EFS::FileSystem"@[10] == 'F');
    assert("AWS::SQS::Queue"@[5] == 'S' && "AWS::SQS::Queue"@[6] == 'Q');
    assert("AWS::Kinesis::Stream"@[5] == 'K');
}

/// What is noted of the type of a resource is the statement that gives it its
/// abstract type, and nothing else; a resource without one is left as it was.
pub proof fn lemma_type_is_noted(m: ModelView, entity: EntityId, kind: Seq<char>, fact: Fact)
    requires
        typed(m, entity).1 is Ok,
        !text::is_quoted(kind),
    ensures
        ({
            let after = typed(m, entity).0;
            let aws_type = m.literal(entity, "aws:type"@);
            &&& aws_type is Some && abstract_type(aws_type->0) == Some(kind) ==> after.resolve(
                "wa2:type"@,
            ) is Some && after.resolve(kind) is Some && (after.facts.contains(fact)
                <==> m.facts.contains(fact) || fact == Fact {
                subject: entity,
                predicate: after.resolve("wa2:type"@)->0,
                object: ValueView::Entity(after.resolve(kind)->0),
            })
            &&& aws_type is None || abstract_type(aws_type->0) is None ==> after == m
        }),
{
    let aws_type = m.literal(entity, "aws:type"@);
    if aws_type is Some && abstract_type(aws_type->0) == Some(kind) {
        laws::lemma_apply_to_states_object(m, entity, "wa2:type"@, kind, fact);
    }
}

/// Whether a statement stands in a graph, each of its parts named.
pub open spec fn says(
    m: ModelView,
    subject: Seq<char>,
    predicate: Seq<char>,
    object: Seq<char>,
) -> bool {
    &&& m.resolve(subject) is Some
    &&& m.resolve(object) is Some
    &&& query_laws::is_linked(m, m.resolve(subject)->0, predicate, m.resolve(object)->0)
}

proof fn lemma_says_stable(
    a: ModelView,
    b: ModelView,
    subject: Seq<char>,
    predicate: Seq<char>,
    object: Seq<char>,
)
    requires
        laws::extends(a, b),
        says(a, subject, predicate, object),
    ensures
        says(b, subject, predicate, object),
{
    laws::lemma_resolve_stable(a, b, subject);
    laws::lemma_resolve_stable(a, b, predicate);
    laws::lemma_resolve_stable(a, b, object);
    laws::lemma_has_stable(
        a,
        b,
        a.resolve(subject)->0,
        a.resolve(predicate)->0,
        ValueView::Entity(a.resolve(object)->0),
    );
}

proof fn lemma_named_extends(m: ModelView, subject: Seq<char>, predicate: Seq<char>, object: Seq<char>)
    ensures
        laws::extends(m, m.apply_named(subject, predicate, object).0),
{
    laws::lemma_extends_reflexive(m);
    laws::lemma_with_name(m, subject);
    let first = m.ensure_entity(subject);
    if let Ok(id) = first.1 {
        laws::lemma_apply_to_extends(first.0, id, predicate, object);
        laws::lemma_extends_transitive(m, first.0, first.0.apply_to(id, predicate, object).0);
    }
}

/// After some statements were made, all of them stand, at every place of the list,
/// and what stood before stays.
pub proof fn lemma_all_statements_stand(m: ModelView, table: Statements)
    requires
        forall|i: int| 0 <= i < table.len() ==> !text::is_quoted((#[trigger] table[i]).2),
    ensures
        laws::extends(m, all_stated(m, table).0),
        all_stated(m, table).1 is Ok ==> forall|i: int|
            0 <= i < table.len() ==> says(
                all_stated(m, table).0,
                (#[trigger] table[i]).0,
                table[i].1,
                table[i].2,
            ),
    decreases table.len(),
{
    if table.len() == 0 {
        laws::lemma_extends_reflexive(m);
    } else {
        let rest = table.drop_last();
        let last = table.last();
        assert forall|i: int| 0 <= i < rest.len() implies !text::is_quoted(
            (#[trigger] rest[i]).2,
        ) by {
            assert(rest[i] == table[i]);
        }
        lemma_all_statements_stand(m, rest);
        let before = all_stated(m, rest).0;
        lemma_named_extends(before, last.0, last.1, last.2);
        let after = all_stated(m, table).0;
        if all_stated(m, rest).1 is Ok {
            laws::lemma_extends_transitive(m, before, after);
        }
        if all_stated(m, table).1 is Ok {
            assert(last == table[table.len() - 1]);
            laws::lemma_apply_named_then_has(before, last.0, last.1, last.2);
            assert forall|i: int| 0 <= i < table.len() implies says(
                after,
                (#[trigger] table[i]).0,
                table[i].1,
                table[i].2,
            ) by {
                if i < rest.len() {
                    assert(rest[i] == table[i]);
                    lemma_says_stable(before, after, table[i].0, table[i].1, table[i].2);
                }
            }
        }
    }
}

/// Statements in two parts are made part by part; the second part only where the
/// first did not fail.
pub proof fn lemma_statements_join(m: ModelView, a: Statements, b: Statements)
    ensures
        all_stated(m, a).1 is Ok ==> all_stated(m, a + b) == all_stated(all_stated(m, a).0, b),
        all_stated(m, a).1 is Err ==> all_stated(m, a + b) == all_stated(m, a),
        forall|s: Seq<char>, p: Seq<char>, o: Seq<char>|
            all_stated(m, #[trigger] seq![(s, p, o)]) == m.apply_named(s, p, o),
        all_stated(m, seq![]) == (m, Ok::<(), Seq<char>>(())),
    decreases b.len(),
{
    assert forall|s: Seq<char>, p: Seq<char>, o: Seq<char>|
        all_stated(m, #[trigger] seq![(s, p, o)]) == m.apply_named(s, p, o) by {
        let one = seq![(s, p, o)];
        assert(one.drop_last() =~= seq![]);
        assert(all_stated(m, one.drop_last()) == (m, Ok::<(), Seq<char>>(())));
    }
    if b.len() == 0 {
        assert(a + b =~= a);
    } else {
        lemma_statements_join(m, a, b.drop_last());
        assert((a + b).drop_last() =~= a + b.drop_last());
        assert((a + b).last() == b.last());
    }
}

/// Once the architectural types are stated, stores, runs and moves are types below
/// nodes; a workload and evidence are types; and a workload has nodes, evidence has
/// a value, and a node has a source among the resources.
pub proof fn lemma_core_types_stand(m: ModelView)
    requires
        stated_in(m, "core"@, core_statements()).1 is Ok,
    ensures
        ({
            let after = stated_in(m, "core"@, core_statements()).0;
            &&& after.namespaces.contains("core"@)
            &&& says(after, "core:Node"@, "wa2:type"@, "wa2:Type"@)
            &&& says(after, "core:Store"@, "wa2:type"@, "wa2:Type"@)
            &&& says(after, "core:Store"@, "wa2:subTypeOf"@, "core:Node"@)
            &&& says(after, "core:Run"@, "wa2:type"@, "wa2:Type"@)
            &&& says(after, "core:Run"@, "wa2:subTypeOf"@, "core:Node"@)
            &&& says(after, "core:Move"@, "wa2:type"@, "wa2:Type"@)
            &&& says(after, "core:Move"@, "wa2:subTypeOf"@, "core:Node"@)
            &&& says(after, "core:Workload"@, "wa2:type"@, "wa2:Type"@)
            &&& says(after, "core:nodes"@, "wa2:type"@, "wa2:Predicate"@)
            &&& says(after, "core:nodes"@, "wa2:domain"@, "core:Workload"@)
            &&& says(after, "core:nodes"@, "wa2:range"@, "core:Node"@)
            &&& says(after, "core:Evidence"@, "wa2:type"@, "wa2:Type"@)
            &&& says(after, "core:value"@, "wa2:type"@, "wa2:Predicate"@)
            &&& says(after, "core:value"@, "wa2:domain"@, "core:Evidence"@)
            &&& says(after, "core:source"@, "wa2:type"@, "wa2:Predicate"@)
            &&& says(after, "core:source"@, "wa2:domain"@, "core:Node"@)
            &&& says(after, "core:source"@, "wa2:range"@, "aws:cfn:Resource"@)
        }),
{
    reveal_strlit("wa2:Type");
    reveal_strlit("wa2:Predicate");
    reveal_strlit("core:Node");
    reveal_strlit("core:Workload");
    reveal_strlit("core:Evidence");
    reveal_strlit("aws:cfn:Resource");
    let table = core_statements();
    assert forall|i: int| 0 <= i < table.len() implies !text::is_quoted((#[trigger] table[i]).2) by {
        assert(table[i].2.len() > 0 && table[i].2[0] != '"');
    }
    let m1 = m.ensure_namespace("core"@).0;
    laws::lemma_namespace_is_registered(m, "core"@, "core"@);
    lemma_all_statements_stand(m1, table);
    let after = all_stated(m1, table).0;
    lemma_namespaces_stay(m1, table);
    assert forall|i: int| 0 <= i < 17 implies says(
        after,
        (#[trigger] core_statements()[i]).0,
        core_statements()[i].1,
        core_statements()[i].2,
    ) by {}
    assert(core_statements()[0] == ("core:Node"@, "wa2:type"@, "wa2:Type"@));
    assert(core_statements()[1] == ("core:Store"@, "wa2:type"@, "wa2:Type"@));
    assert(core_statements()[2] == ("core:Store"@, "wa2:subTypeOf"@, "core:Node"@));
    assert(core_statements()[3] == ("core:Run"@, "wa2:type"@, "wa2:Type"@));
    assert(core_statements()[4] == ("core:Run"@, "wa2:subTypeOf"@, "core:Node"@));
    assert(core_statements()[5] == ("core:Move"@, "wa2:type"@, "wa2:Type"@));
    assert(core_statements()[6] == ("core:Move"@, "wa2:subTypeOf"@, "core:Node"@));
    assert(core_statements()[7] == ("core:Workload"@, "wa2:type"@, "wa2:Type"@));
    assert(core_statements()[8] == ("core:nodes"@, "wa2:type"@, "wa2:Predicate"@));
    assert(core_statements()[9] == ("core:nodes"@, "wa2:domain"@, "core:Workload"@));
    assert(core_statements()[10] == ("core:nodes"@, "wa2:range"@, "core:Node"@));
    assert(core_statements()[11] == ("core:Evidence"@, "wa2:type"@, "wa2:Type"@));
    assert(core_statements()[12] == ("core:value"@, "wa2:type"@, "wa2:Predicate"@));
    assert(core_statements()[13] == ("core:value"@, "wa2:domain"@, "core:Evidence"@));
    assert(core_statements()[14] == ("core:source"@, "wa2:type"@, "wa2:Predicate"@));
    assert(core_statements()[15] == ("core:source"@, "wa2:domain"@, "core:Node"@));
    assert(core_statements()[16] == ("core:source"@, "wa2:range"@, "aws:cfn:Resource"@));
}

proof fn lemma_namespaces_stay(m: ModelView, table: Statements)
    ensures
        all_stated(m, table).0.namespaces == m.namespaces,
    decreases table.len(),
{
    if table.len() > 0 {
        lemma_namespaces_stay(m, table.drop_last());
    }
}

/// After some entities were asked for, each of the names denotes one, at every
/// place of the list, and what stood before stays.
pub proof fn lemma_all_names_denote(m: ModelView, names: Seq<Seq<char>>)
    ensures
        laws::extends(m, all_ensured(m, names).0),
        all_ensured(m, names).0.namespaces == m.namespaces,
        all_ensured(m, names).1 is Ok ==> forall|i: int|
            0 <= i < names.len() ==> all_ensured(m, names).0.resolve(#[trigger] names[i]) is Some,
    decreases names.len(),
{
    if names.len() == 0 {
        laws::lemma_extends_reflexive(m);
    } else {
        let rest = names.drop_last();
        lemma_all_names_denote(m, rest);
        let before = all_ensured(m, rest).0;
        let after = all_ensured(m, names).0;
        laws::lemma_with_name(before, names.last());
        laws::lemma_extends_reflexive(before);
        laws::lemma_extends_transitive(m, before, after);
        if all_ensured(m, names).1 is Ok {
            laws::lemma_ensure_then_resolve(before, names.last());
            assert forall|i: int| 0 <= i < names.len() implies after.resolve(
                #[trigger] names[i],
            ) is Some by {
                if i < rest.len() {
                    assert(rest[i] == names[i]);
                    laws::lemma_resolve_stable(before, after, names[i]);
                }
            }
        }
    }
}

/// Once the types of CloudFormation are stated, each intrinsic function is a type;
/// templates, parameters and resources are types; and what templates say of them
/// are predicates.
pub proof fn lemma_cfn_types_stand(m: ModelView, intrinsics: Seq<Seq<char>>)
    requires
        with_cfn_types(m, intrinsics).1 is Ok,
    ensures
        ({
            let after = with_cfn_types(m, intrinsics).0;
            &&& after.namespaces.contains("aws"@) && after.namespaces.contains("aws:cfn"@)
            &&& forall|i: int|
                0 <= i < intrinsics.len() ==> says(
                    after,
                    "aws:cfn:"@ + #[trigger] intrinsics[i],
                    "wa2:type"@,
                    "wa2:Type"@,
                )
            &&& forall|s: Seq<char>|
                seq!["Template"@, "Parameter"@, "PseudoParameter"@, "Resource"@].contains(
                    s,
                ) ==> says(after, #[trigger] ("aws:cfn:"@ + s), "wa2:type"@, "wa2:Type"@)
            &&& forall|s: Seq<char>|
                seq![
                    "target"@,
                    "attribute"@,
                    "template"@,
                    "parameters"@,
                    "pseudoParameters"@,
                    "type"@,
                    "default"@,
                    "description"@,
                    "delimiter"@,
                    "condition"@,
                    "conditionName"@,
                ].contains(s) ==> says(
                    after,
                    #[trigger] ("aws:cfn:"@ + s),
                    "wa2:type"@,
                    "wa2:Predicate"@,
                )
            &&& forall|s: Seq<char>|
                seq![
                    "aws:cfn:Output"@,
                    "aws:cfn:Resource"@,
                    "aws:cfn:outputs"@,
                    "aws:cfn:resources"@,
                    "aws:cfn:value"@,
                    "aws:cfn:exportName"@,
                    "aws:cfn:SubVarRef"@,
                    "aws:cfn:varRef"@,
                ].contains(s) ==> #[trigger] after.resolve(s) is Some
        }),
{
    reveal_strlit("wa2:Type");
    reveal_strlit("wa2:Predicate");
    let types = cfn_typed(cfn_types(), "wa2:Type"@);
    let functions = cfn_typed(intrinsics, "wa2:Type"@);
    let predicates = cfn_typed(cfn_predicates(), "wa2:Predicate"@);
    let m1 = m.ensure_namespace("aws"@).0;
    let m2 = m1.ensure_namespace("aws:cfn"@).0;
    laws::lemma_namespace_is_registered(m, "aws"@, "aws"@);
    laws::lemma_namespace_is_registered(m1, "aws:cfn"@, "aws"@);
    laws::lemma_namespace_is_registered(m1, "aws:cfn"@, "aws:cfn"@);
    lemma_all_names_denote(m2, cfn_names());
    let m3 = all_ensured(m2, cfn_names()).0;
    lemma_all_statements_stand(m3, types);
    lemma_namespaces_stay(m3, types);
    let m4 = all_stated(m3, types).0;
    lemma_all_statements_stand(m4, functions);
    lemma_namespaces_stay(m4, functions);
    let m5 = all_stated(m4, functions).0;
    lemma_all_statements_stand(m5, predicates);
    lemma_namespaces_stay(m5, predicates);
    let after = all_stated(m5, predicates).0;
    laws::lemma_extends_transitive(m4, m5, after);
    laws::lemma_extends_transitive(m3, m4, after);
    assert forall|i: int| 0 <= i < intrinsics.len() implies says(
        after,
        "aws:cfn:"@ + #[trigger] intrinsics[i],
        "wa2:type"@,
        "wa2:Type"@,
    ) by {
        assert(functions[i] == ("aws:cfn:"@ + intrinsics[i], "wa2:type"@, "wa2:Type"@));
        lemma_says_stable(m5, after, functions[i].0, functions[i].1, functions[i].2);
    }
    assert forall|s: Seq<char>|
        seq!["Template"@, "Parameter"@, "PseudoParameter"@, "Resource"@].contains(
            s,
        ) implies says(after, #[trigger] ("aws:cfn:"@ + s), "wa2:type"@, "wa2:Type"@) by {
        let list = seq!["Template"@, "Parameter"@, "PseudoParameter"@, "Resource"@];
        let i = choose|i: int| 0 <= i < list.len() && list[i] == s;
        assert(types[i] == ("aws:cfn:"@ + s, "wa2:type"@, "wa2:Type"@));
        lemma_says_stable(m4, after, types[i].0, types[i].1, types[i].2);
    }
    assert forall|s: Seq<char>|
        seq![
            "target"@,
            "attribute"@,
            "template"@,
            "parameters"@,
            "pseudoParameters"@,
            "type"@,
            "default"@,
            "description"@,
            "delimiter"@,
            "condition"@,
            "conditionName"@,
        ].contains(s) implies says(
        after,
        #[trigger] ("aws:cfn:"@ + s),
        "wa2:type"@,
        "wa2:Predicate"@,
    ) by {
        let list = seq![
            "target"@,
            "attribute"@,
            "template"@,
            "parameters"@,
            "pseudoParameters"@,
            "type"@,
            "default"@,
            "description"@,
            "delimiter"@,
            "condition"@,
            "conditionName"@,
        ];
        let i = choose|i: int| 0 <= i < list.len() && list[i] == s;
        assert(predicates[i] == ("aws:cfn:"@ + s, "wa2:type"@, "wa2:Predicate"@));
    }
    assert forall|s: Seq<char>|
        seq![
            "aws:cfn:Output"@,
            "aws:cfn:Resource"@,
            "aws:cfn:outputs"@,
            "aws:cfn:resources"@,
            "aws:cfn:value"@,
            "aws:cfn:exportName"@,
            "aws:cfn:SubVarRef"@,
            "aws:cfn:varRef"@,
        ].contains(s) implies #[trigger] after.resolve(s) is Some by {
        let list = seq![
            "aws:cfn:Output"@,
            "aws:cfn:Resource"@,
            "aws:cfn:outputs"@,
            "aws:cfn:resources"@,
            "aws:cfn:value"@,
            "aws:cfn:exportName"@,
            "aws:cfn:SubVarRef"@,
            "aws:cfn:varRef"@,
        ];
        let i = choose|i: int| 0 <= i < list.len() && list[i] == s;
        assert(cfn_names()[i] == s);
        laws::lemma_resolve_stable(m3, after, s);
    }
}

/// A template that was added is a new entity of the type of templates; it is the
/// source of the workload, which is a workload and the root.
pub proof fn lemma_template_is_source(m: ModelView)
    requires
        with_template(m).1 is Ok,
    ensures
        ({
            let after = with_template(m).0;
            let template = with_template(m).1->Ok_0;
            let workload = after.resolve("core:workload"@);
            &&& template == m.next_id()
            &&& workload is Some && after.root == workload
            &&& query_laws::is_of_type(after, template, "cfn:Template"@)
            &&& query_laws::is_of_type(after, workload->0, "core:Workload"@)
            &&& query_laws::is_linked(after, workload->0, "core:source"@, template)
        }),
{
    reveal_strlit("cfn:Template");
    reveal_strlit("core:Workload");
    let template = m.next_id();
    let m0 = m.with_blank();
    let m1 = m0.apply_to(template, "wa2:type"@, "cfn:Template"@).0;
    laws::lemma_apply_to_then_has(m0, template, "wa2:type"@, "cfn:Template"@);
    laws::lemma_ensure_then_resolve(m1, "core:workload"@);
    laws::lemma_with_name(m1, "core:workload"@);
    let m2 = m1.ensure_entity("core:workload"@).0;
    let workload = m1.ensure_entity("core:workload"@).1->Ok_0;
    let m3 = m2.apply_to(workload, "wa2:type"@, "core:Workload"@).0;
    laws::lemma_apply_to_then_has(m2, workload, "wa2:type"@, "core:Workload"@);
    laws::lemma_apply_to_extends(m2, workload, "wa2:type"@, "core:Workload"@);
    let m4 = m3.apply(workload, "core:source"@, ValueView::Entity(template)).0;
    laws::lemma_apply_then_has(m3, workload, "core:source"@, ValueView::Entity(template));
    let after = m4;
    laws::lemma_extends_transitive(m2, m3, after);
    laws::lemma_extends_transitive(m1, m2, after);
    laws::lemma_resolve_stable(m1, after, "cfn:Template"@);
    laws::lemma_resolve_stable(m1, after, "wa2:type"@);
    laws::lemma_resolve_stable(m2, after, "core:workload"@);
    laws::lemma_resolve_stable(m3, after, "core:Workload"@);
    laws::lemma_resolve_stable(m3, after, "wa2:type"@);
    laws::lemma_has_stable(
        m1,
        after,
        template,
        m1.resolve("wa2:type"@)->0,
        ValueView::Entity(m1.resolve("cfn:Template"@)->0),
    );
    laws::lemma_has_stable(
        m3,
        after,
        workload,
        m3.resolve("wa2:type"@)->0,
        ValueView::Entity(m3.resolve("core:Workload"@)->0),
    );
    let full = with_template(m).0;
    assert(full.names == m4.names && full.facts == m4.facts);
    assert(forall|name: Seq<char>| #[trigger] full.resolve(name) == m4.resolve(name));
    assert(full.root == Some(workload));
    assert(full.resolve("core:workload"@) == Some(workload));
    assert(query_laws::is_of_type(full, template, "cfn:Template"@));
    assert(query_laws::is_of_type(full, workload, "core:Workload"@));
    assert(query_laws::is_linked(full, workload, "core:source"@, template));
}

/// Resilience is noted of a resource that is replicated, and of no other; the graph
/// is left as it was for any other.
pub proof fn lemma_evidence_is_noted(m: ModelView, entity: EntityId)
    requires
        noted(m, entity).1 is Ok,
    ensures
        is_replicated(m, entity) ==> guidance::is_evident(
            noted(m, entity).0,
            entity,
            "DataResiliance"@,
        ),
        !is_replicated(m, entity) ==> noted(m, entity).0 == m,
        laws::extends(m, noted(m, entity).0),
{
    laws::lemma_extends_reflexive(m);
    lemma_derivation_extends(m, entity);
    if is_replicated(m, entity) {
        lemma_evidence_is_found(m, entity);
    }
}

} // verus!
